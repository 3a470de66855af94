//! Installing a plugin: resolve, fetch, check, review, and only then commit.
//!
//! Nothing reaches the plugin root before it was checked. A pin, when there is one, overrides
//! whatever the index says: the index is a convenience, the lockfile is the decision.

use crate::index;
use crate::index::{
    best, exact_from, IndexError, IndexFault, PluginIndex, PluginReleases, Release, ReleaseModel,
};
use crate::lock;
use crate::lock::{bare_hex, LockError, LockFault, LockedPlugin, Lockfile, Pin};
use crate::manifest::Manifest;
use crate::package::{Limits, PackageError, PackageFault};
use crate::path;
use crate::signature::DirectoryDigest;
use crate::text;
use crate::upgrade;
use crate::upgrade::UpgradeReview;
use crate::version::{Version, VersionReq};
use vstd::prelude::*;
use vstd::string::*;

verus! {

/// Why a package could not be fetched.
#[derive(Debug, Clone, PartialEq, Eq)]
pub enum SourceError {
    /// The reference does not name anything this source can fetch.
    NotFound(String),
    /// The reference is not in a form this source understands.
    Unsupported(String),
    /// The source could not be reached, or answered with an error.
    Transport(String),
    /// The response was not a plugin package.
    Malformed(String),
}

impl SourceError {
    /// What the error says.
    pub open spec fn message(self) -> Seq<char> {
        match self {
            SourceError::NotFound(reference) => "`"@ + reference@ + "` was not found"@,
            SourceError::Unsupported(reference) => "`"@ + reference@
                + "` is not a reference this source can fetch"@,
            SourceError::Transport(message) => "fetching: "@ + message@,
            SourceError::Malformed(message) => message@,
        }
    }

    /// The error written out.
    pub fn to_string(&self) -> (r: String)
        ensures
            r@ == self.message(),
    {
        match self {
            SourceError::NotFound(reference) => {
                let mut out = "`".to_owned();
                out.append(reference.as_str());
                out.append("` was not found");
                out
            },
            SourceError::Unsupported(reference) => {
                let mut out = "`".to_owned();
                out.append(reference.as_str());
                out.append("` is not a reference this source can fetch");
                out
            },
            SourceError::Transport(message) => {
                let mut out = "fetching: ".to_owned();
                out.append(message.as_str());
                out
            },
            SourceError::Malformed(message) => message.clone(),
        }
    }
}

/// Somewhere plugin packages can be fetched from.
///
/// A source is not trusted with anything but returning bytes: what it returns is checked
/// against a digest the caller already holds.
pub trait PluginSource {
    /// Whether a reference may be answered so: any answer may come where a source does not say
    /// more.
    open spec fn sends(&self, reference: &str, r: Result<Vec<u8>, SourceError>) -> bool {
        true
    }

    /// Fetches the package named by `reference`.
    fn fetch(&self, reference: &str) -> (r: Result<Vec<u8>, SourceError>)
        ensures
            self.sends(reference, r),
    ;
}

/// Why an install did not complete.
#[derive(Debug, PartialEq, Eq)]
pub enum InstallError {
    /// The index could not answer.
    Index(IndexError),
    /// The package could not be fetched.
    Source(SourceError),
    /// The package could not be unpacked, or was not what it claimed to be.
    Package(PackageError),
    /// The release carries no `source` and none was supplied.
    NoSource(String),
    /// The lockfile pins a different build than the index offered.
    Lock(LockError),
    /// The package's manifest disagrees with what the index said about it.
    Mismatch(String),
    /// A file could not be written.
    Io(String),
}

/// Why an install did not complete, apart from how it is stored.
pub enum InstallFault {
    Index(IndexFault),
    Source(SourceError),
    Package(PackageFault),
    NoSource(Seq<char>),
    Lock(LockFault),
    Mismatch(Seq<char>),
    Io(Seq<char>),
}

impl View for InstallError {
    type V = InstallFault;

    open spec fn view(&self) -> InstallFault {
        match *self {
            InstallError::Index(error) => InstallFault::Index(error@),
            InstallError::Source(error) => InstallFault::Source(error),
            InstallError::Package(error) => InstallFault::Package(error@),
            InstallError::NoSource(name) => InstallFault::NoSource(name@),
            InstallError::Lock(error) => InstallFault::Lock(error@),
            InstallError::Mismatch(message) => InstallFault::Mismatch(message@),
            InstallError::Io(message) => InstallFault::Io(message@),
        }
    }
}

impl InstallFault {
    /// What the error says.
    pub open spec fn message(self) -> Seq<char> {
        match self {
            InstallFault::Index(error) => error.message(),
            InstallFault::Source(error) => error.message(),
            InstallFault::Package(error) => error.message(),
            InstallFault::NoSource(name) => "the index gives no `source` for `"@ + name
                + "`, and no fallback was configured"@,
            InstallFault::Lock(error) => error.message(),
            InstallFault::Mismatch(message) => message,
            InstallFault::Io(message) => message,
        }
    }
}

impl InstallError {
    /// The error written out.
    pub fn to_string(&self) -> (r: String)
        ensures
            r@ == self@.message(),
    {
        match self {
            InstallError::Index(error) => error.to_string(),
            InstallError::Source(error) => error.to_string(),
            InstallError::Package(error) => error.to_string(),
            InstallError::NoSource(name) => {
                let mut out = "the index gives no `source` for `".to_owned();
                out.append(name.as_str());
                out.append("`, and no fallback was configured");
                out
            },
            InstallError::Lock(error) => error.to_string(),
            InstallError::Mismatch(message) => message.clone(),
            InstallError::Io(message) => message.clone(),
        }
    }
}

/// The release to install, or why there is none: the pinned version, if one is pinned, else
/// the newest that satisfies the requirement.
pub open spec fn chosen(
    document: PluginReleases,
    name: Seq<char>,
    requirement: Seq<char>,
    pin: Option<Pin>,
) -> Result<ReleaseModel, InstallFault> {
    match pin_version(pin) {
        Some(pinned) => match exact_from(document.releases@, pinned, 0) {
            Some(at) => Ok(document.releases@[at]@),
            None => Err(
                InstallFault::Index(
                    IndexFault::NoMatch { name, requirement: "="@ + pinned },
                ),
            ),
        },
        None => match best(document.releases@, requirement) {
            Some(at) => Ok(document.releases@[at]@),
            None => Err(InstallFault::Index(IndexFault::NoMatch { name, requirement })),
        },
    }
}

/// The version that is pinned, if one is.
pub open spec fn pin_version(pin: Option<Pin>) -> Option<Seq<char>> {
    match pin {
        Some(pin) => pin.version,
        None => None,
    }
}

/// The view of a choice of release.
pub open spec fn chosen_view(r: Result<Release, InstallError>) -> Result<ReleaseModel, InstallFault> {
    match r {
        Ok(release) => Ok(release@),
        Err(error) => Err(error@),
    }
}

/// Chooses the release to install. When a version is pinned the pin wins, so that an upgrade
/// is always a deliberate act.
pub fn choose_release(
    document: &PluginReleases,
    name: &str,
    requirement: &VersionReq,
    lockfile: &Lockfile,
) -> (r: Result<Release, InstallError>)
    requires
        lockfile.wf(),
    ensures
        chosen_view(r) == chosen(*document, name@, requirement@, lockfile.pinned(name@)),
{
    let pinned: Option<Version> = match lockfile.get(name) {
        Some(pin) => match &pin.version {
            Some(version) => Some(version.clone()),
            None => None,
        },
        None => None,
    };
    match pinned {
        Some(version) => match document.exact(&version) {
            Some(release) => Ok(release.clone()),
            None => {
                let mut wanted = "=".to_owned();
                wanted.append(version.as_str());
                Err(
                    InstallError::Index(
                        IndexError::NoMatch { name: name.to_owned(), requirement: wanted },
                    ),
                )
            },
        },
        None => match document.best_match(requirement) {
            Some(release) => Ok(release.clone()),
            None => Err(
                InstallError::Index(
                    IndexError::NoMatch {
                        name: name.to_owned(),
                        requirement: requirement.to_string(),
                    },
                ),
            ),
        },
    }
}

/// From where a release is fetched, or why it is not: a pin of other bytes refuses it.
pub open spec fn reference_of(
    name: Seq<char>,
    release: ReleaseModel,
    pin: Option<Pin>,
) -> Result<Seq<char>, InstallFault> {
    if pin is Some && text::lower(bare_hex(pin->0.digest)) != text::lower(
        bare_hex(release.digest),
    ) {
        Err(
            InstallFault::Lock(
                LockFault::DigestMismatch {
                    name,
                    expected: pin->0.digest,
                    found: release.digest,
                },
            ),
        )
    } else {
        match release.source {
            Some(source) => Ok(source),
            None => Err(InstallFault::NoSource(name)),
        }
    }
}

/// The view of a reference.
pub open spec fn reference_view(r: Result<String, InstallError>) -> Result<Seq<char>, InstallFault> {
    match r {
        Ok(reference) => Ok(reference@),
        Err(error) => Err(error@),
    }
}

/// From where a release is fetched, once the lockfile had its say.
pub fn release_reference(name: &str, release: &Release, lockfile: &Lockfile) -> (r: Result<
    String,
    InstallError,
>)
    requires
        lockfile.wf(),
    ensures
        reference_view(r) == reference_of(name@, release@, lockfile.pinned(name@)),
{
    match lockfile.get(name) {
        Some(pin) => {
            proof {
                text::lower_idempotent(bare_hex(pin.digest@));
                text::lower_idempotent(bare_hex(release.digest@));
            }
            if !text::same_ignoring_case(pin.hex().as_str(), release.hex().as_str()) {
                return Err(
                    InstallError::Lock(
                        LockError::DigestMismatch {
                            name: name.to_owned(),
                            expected: pin.digest.clone(),
                            found: release.digest.clone(),
                        },
                    ),
                );
            }
        },
        None => {},
    }
    match &release.source {
        Some(source) => Ok(source.clone()),
        None => Err(InstallError::NoSource(name.to_owned())),
    }
}

/// What is wrong with the manifest of a package, if anything: it must be the plugin and the
/// version that the release names.
pub open spec fn manifest_fault(
    name: Seq<char>,
    release: ReleaseModel,
    manifest: Manifest,
) -> Option<Seq<char>> {
    if manifest.name@ != name {
        Some(
            "the package for `"@ + name + "` contains a plugin named `"@ + manifest.name@ + "`"@,
        )
    } else if manifest.published() != release.version {
        Some(
            "`"@ + name + "`: the index offers "@ + release.version + " but the package declares "@
                + manifest.published(),
        )
    } else {
        None
    }
}

/// Confirms that the manifest of a package is the one its release names.
pub fn check_manifest(name: &str, release: &Release, manifest: &Manifest) -> (r: Result<
    (),
    InstallError,
>)
    ensures
        match manifest_fault(name@, release@, *manifest) {
            Some(message) => r matches Err(error) && error@ == InstallFault::Mismatch(message),
            None => r is Ok,
        },
{
    if !text::same(manifest.name.as_str(), name) {
        let mut out = "the package for `".to_owned();
        out.append(name);
        out.append("` contains a plugin named `");
        out.append(manifest.name.as_str());
        out.append("`");
        return Err(InstallError::Mismatch(out));
    }
    let declared = manifest.effective_version();
    if !declared.same(&release.version) {
        let mut out = "`".to_owned();
        out.append(name);
        out.append("`: the index offers ");
        out.append(release.version.as_str());
        out.append(" but the package declares ");
        out.append(declared.as_str());
        return Err(InstallError::Mismatch(out));
    }
    Ok(())
}

/// A plugin that has been fetched and checked but not yet installed.
#[derive(Debug)]
pub struct Staged {
    name: String,
    release: Release,
    digest: DirectoryDigest,
    manifest: Manifest,
    review: Option<UpgradeReview>,
    staging: String,
    target: String,
}

/// What a staged plugin is: the release, the bytes, the manifest, and what changes.
pub struct StagedModel {
    pub name: Seq<char>,
    pub release: ReleaseModel,
    pub digest: DirectoryDigest,
    pub manifest: Manifest,
    pub review: Option<upgrade::ReviewModel>,
    pub staging: Seq<char>,
    pub target: Seq<char>,
}

impl View for Staged {
    type V = StagedModel;

    closed spec fn view(&self) -> StagedModel {
        StagedModel {
            name: self.name@,
            release: self.release@,
            digest: self.digest,
            manifest: self.manifest,
            review: match self.review {
                Some(review) => Some(review@),
                None => None,
            },
            staging: self.staging@,
            target: self.target@,
        }
    }
}

/// The pin that a staged plugin is installed under.
pub open spec fn staged_pin(staged: StagedModel) -> Pin {
    Pin {
        digest: lock::normalized("sha256:"@ + staged.digest.fingerprint()),
        version: Some(staged.manifest.published()),
        signer: staged.release.signer,
        issuer: staged.release.issuer,
        source: staged.release.source,
    }
}

impl Staged {
    /// The plugin's name.
    pub fn name(&self) -> (r: &str)
        ensures
            r@ == self@.name,
    {
        self.name.as_str()
    }

    /// The release that was fetched.
    pub fn release(&self) -> (r: &Release)
        ensures
            r@ == self@.release,
    {
        &self.release
    }

    /// The manifest inside the package, read without running any of its code.
    pub fn manifest(&self) -> (r: &Manifest)
        ensures
            *r == self@.manifest,
    {
        &self.manifest
    }

    /// The verified digest of the staged files.
    pub fn digest(&self) -> (r: &DirectoryDigest)
        ensures
            *r == self@.digest,
    {
        &self.digest
    }

    /// What changes relative to the installed version, or `None` on a first install.
    pub fn review(&self) -> (r: Option<&UpgradeReview>)
        ensures
            match r {
                Some(review) => self@.review == Some(review@),
                None => self@.review is None,
            },
    {
        match &self.review {
            Some(review) => Some(review),
            None => None,
        }
    }

    /// Whether this install asks for authority the installed version did not have. A first
    /// install always counts as widening: accepting it is a decision.
    pub fn widens(&self) -> (r: bool)
        ensures
            r == match self@.review {
                Some(review) => upgrade::some_wider(review.changes),
                None => true,
            },
    {
        match &self.review {
            Some(review) => review.widens(),
            None => true,
        }
    }

    /// Where the files are staged, for a host that wants to look at them.
    pub fn staging_dir(&self) -> (r: &str)
        ensures
            r@ == self@.staging,
    {
        self.staging.as_str()
    }

    /// Where the plugin is installed.
    pub fn target_dir(&self) -> (r: &str)
        ensures
            r@ == self@.target,
    {
        self.target.as_str()
    }

    /// The pin to record once the plugin is installed.
    pub fn pin(&self) -> (r: LockedPlugin)
        ensures
            r@ == staged_pin(self@),
            text::opt(r.signer) == self@.release.signer,
            text::opt(r.issuer) == self@.release.issuer,
            text::opt(r.source) == self@.release.source,
            r.version matches Some(version) && version@ == self@.manifest.published(),
    {
        let mut pin = LockedPlugin::from_digest(&self.digest).at_version(
            self.manifest.effective_version(),
        );
        match &self.release.signer {
            Some(signer) => {
                pin = pin.signed_by(signer.as_str());
            },
            None => {},
        }
        match &self.release.issuer {
            Some(issuer) => {
                pin = pin.issued_by(issuer.as_str());
            },
            None => {},
        }
        match &self.release.source {
            Some(source) => {
                pin = pin.fetched_from(source.as_str());
            },
            None => {},
        }
        pin
    }
}

/// The name of the directory a plugin is staged in, beside the plugin root's plugins.
pub open spec fn staging_name(name: Seq<char>) -> Seq<char> {
    "."@ + name + ".staging"@
}

/// The name of a directory without its extension: all before the last dot, unless that is
/// the first character.
pub open spec fn stem(name: Seq<char>) -> Seq<char> {
    let dot = last_dot(name, name.len() as int);
    if dot <= 0 {
        name
    } else {
        name.subrange(0, dot)
    }
}

/// The place of the last dot among the first `n` characters, or `-1`.
pub open spec fn last_dot(name: Seq<char>, n: int) -> int
    decreases n,
{
    if n <= 0 {
        -1
    } else if name[n - 1] == '.' {
        n - 1
    } else {
        last_dot(name, n - 1)
    }
}

/// The name of the directory a previous version is moved aside to.
pub fn previous_name(name: &str) -> (r: String)
    ensures
        r@ == stem(name@) + ".previous"@,
{
    let chars = text::chars_of(name);
    let n: usize = chars.len();
    let mut i: usize = n;
    while i > 0 && chars[i - 1] != '.'
        invariant
            chars@ == name@,
            n == chars.len(),
            i <= n,
            last_dot(name@, n as int) == last_dot(name@, i as int),
        decreases i,
    {
        i = i - 1;
    }
    let mut out = if i <= 1 {
        name.to_owned()
    } else {
        text::text_of(&chars, 0, i - 1)
    };
    out.append(".previous");
    out
}

/// Installs plugins into a root, from an index and a source.
#[derive(Debug)]
pub struct Installer<I, S> {
    index: I,
    source: S,
    root: String,
    limits: Limits,
}

impl<I, S> Installer<I, S> {
    pub closed spec fn catalogue(self) -> I {
        self.index
    }

    pub closed spec fn packages(self) -> S {
        self.source
    }

    pub closed spec fn dir(self) -> Seq<char> {
        self.root@
    }

    pub closed spec fn bounds(self) -> Limits {
        self.limits
    }

    /// Installs into `root`, resolving through `index` and fetching through `source`.
    pub fn new(index: I, source: S, root: &str) -> (r: Installer<I, S>)
        ensures
            r.catalogue() == index,
            r.packages() == source,
            r.dir() == root@,
            r.bounds() == (Limits {
                entries: 4096,
                total_bytes: 67_108_864,
                file_bytes: 16_777_216,
            }),
    {
        Installer {
            index,
            source,
            root: root.to_owned(),
            limits: Limits { entries: 4096, total_bytes: 67_108_864, file_bytes: 16_777_216 },
        }
    }

    /// Bounds what an archive may expand to.
    pub fn limits(self, limits: Limits) -> (r: Installer<I, S>)
        ensures
            r.catalogue() == self.catalogue(),
            r.packages() == self.packages(),
            r.dir() == self.dir(),
            r.bounds() == limits,
    {
        Installer { index: self.index, source: self.source, root: self.root, limits }
    }

    /// What an archive may expand to.
    pub fn configured_limits(&self) -> (r: Limits)
        ensures
            r == self.bounds(),
    {
        self.limits
    }

    /// The plugin root being installed into.
    pub fn root(&self) -> (r: &str)
        ensures
            r@ == self.dir(),
    {
        self.root.as_str()
    }

    /// The index this installer resolves through.
    pub fn index(&self) -> (r: &I)
        ensures
            *r == self.catalogue(),
    {
        &self.index
    }

    /// Where a plugin is installed.
    pub fn target(&self, name: &str) -> (r: String)
        ensures
            r@ == path::under(self.dir(), name@),
    {
        path::join(self.root.as_str(), name)
    }

    /// Where a plugin is staged: beside the others, so that the commit is a rename within
    /// one filesystem rather than a copy that can half-fail.
    pub fn staging(&self, name: &str) -> (r: String)
        ensures
            r@ == path::under(self.dir(), staging_name(name@)),
    {
        let mut own = ".".to_owned();
        own.append(name);
        own.append(".staging");
        path::join(self.root.as_str(), own.as_str())
    }

    /// Where a previous version is moved aside to.
    pub fn previous(&self, name: &str) -> (r: String)
        ensures
            r@ == path::under(self.dir(), stem(name@) + ".previous"@),
    {
        path::join(self.root.as_str(), previous_name(name).as_str())
    }

    /// Whether checking a package of confirmed bytes comes to this: its manifest must be that
    /// of the plugin and version that the release names.
    pub open spec fn contents_come_to(
        self,
        name: Seq<char>,
        release: ReleaseModel,
        digest: DirectoryDigest,
        read: Result<Manifest, String>,
        installed: Option<Manifest>,
        r: Result<Staged, InstallError>,
    ) -> bool {
        match read {
            Err(message) => r matches Err(error) && error@ == InstallFault::Mismatch(
                "`"@ + name + "`: "@ + message@,
            ),
            Ok(manifest) => match manifest_fault(name, release, manifest) {
                Some(message) => r matches Err(error) && error@ == InstallFault::Mismatch(message),
                None => {
                    &&& r matches Ok(staged)
                    &&& staged@.name == name
                    &&& staged@.release == release
                    &&& staged@.digest == digest
                    &&& staged@.manifest == manifest
                    &&& staged@.review == match installed {
                        Some(installed) => Some(upgrade::reviewed(installed, manifest)),
                        None => None,
                    }
                    &&& staged@.staging == path::under(self.dir(), staging_name(name))
                    &&& staged@.target == path::under(self.dir(), name)
                },
            },
        }
    }

    /// Checks a package whose bytes are those the release names, given how its manifest was
    /// read, and the manifest of the version that is installed, if one is.
    pub fn check_contents(
        &self,
        name: &str,
        release: Release,
        digest: DirectoryDigest,
        read: Result<Manifest, String>,
        installed: Option<Manifest>,
    ) -> (r: Result<Staged, InstallError>)
        requires
            read matches Ok(manifest) ==> manifest.wf(),
            installed matches Some(manifest) ==> manifest.wf(),
        ensures
            self.contents_come_to(name@, release@, digest, read, installed, r),
    {
        let manifest = match read {
            Err(message) => {
                let mut out = "`".to_owned();
                out.append(name);
                out.append("`: ");
                out.append(message.as_str());
                return Err(InstallError::Mismatch(out));
            },
            Ok(manifest) => manifest,
        };
        match check_manifest(name, &release, &manifest) {
            Err(error) => {
                return Err(error);
            },
            Ok(_) => {},
        }
        let review = match &installed {
            Some(installed) => Some(UpgradeReview::between(installed, &manifest)),
            None => None,
        };
        Ok(
            Staged {
                name: name.to_owned(),
                release,
                digest,
                manifest,
                review,
                staging: self.staging(name),
                target: self.target(name),
            },
        )
    }
}

/// Whether fetching a release comes to this: nothing is fetched that the lockfile does not
/// allow, and what is fetched is what the source sends for the reference.
pub open spec fn fetched<S: PluginSource>(
    source: S,
    name: Seq<char>,
    release: ReleaseModel,
    pin: Option<Pin>,
    r: Result<Vec<u8>, InstallError>,
) -> bool {
    match reference_of(name, release, pin) {
        Err(fault) => r matches Err(error) && error@ == fault,
        Ok(reference) => exists|at: &str, answer: Result<Vec<u8>, SourceError>|
            {
                &&& at@ == reference
                &&& #[trigger] source.sends(at, answer)
                &&& match answer {
                    Ok(archive) => r == Ok::<Vec<u8>, InstallError>(archive),
                    Err(error) => r == Err::<Vec<u8>, InstallError>(InstallError::Source(error)),
                }
            },
    }
}

/// The release that was settled on, or why none was.
pub open spec fn settled_view(r: Result<Release, InstallError>) -> Result<
    ReleaseModel,
    InstallFault,
> {
    match r {
        Ok(release) => Ok(release@),
        Err(error) => Err(error@),
    }
}

/// Which release an install settles on, given what the index answered.
pub open spec fn settled_on(
    answer: Result<PluginReleases, IndexError>,
    name: Seq<char>,
    requirement: Seq<char>,
    pin: Option<Pin>,
) -> Result<ReleaseModel, InstallFault> {
    match answer {
        Err(error) => Err(InstallFault::Index(error@)),
        Ok(document) => chosen(document, name, requirement, pin),
    }
}

/// Which release an upgrade settles on, given what the index answered.
pub open spec fn upgraded_to(
    answer: Result<PluginReleases, IndexError>,
    name: Seq<char>,
    requirement: Seq<char>,
) -> Result<ReleaseModel, InstallFault> {
    match index::answered_resolution(answer, name, requirement) {
        Err(fault) => Err(InstallFault::Index(fault)),
        Ok(release) => Ok(release),
    }
}

impl<I: PluginIndex, S: PluginSource> Installer<I, S> {
    /// Which release of a plugin to install: the pinned version, if one is pinned. What the
    /// index answers is its own.
    pub(crate) fn settle(&self, name: &str, requirement: &VersionReq, lockfile: &Lockfile) -> (r: (
        Result<Release, InstallError>,
        Ghost<Result<PluginReleases, IndexError>>,
    ))
        requires
            lockfile.wf(),
        ensures
            self.catalogue().publishes(name, r.1@),
            settled_view(r.0) == settled_on(r.1@, name@, requirement@, lockfile.pinned(name@)),
    {
        let answer = self.index.releases(name);
        let ghost said = answer;
        match answer {
            Err(error) => (Err(InstallError::Index(error)), Ghost(said)),
            Ok(document) => (
                choose_release(&document, name, requirement, lockfile),
                Ghost(said),
            ),
        }
    }

    /// Which release an upgrade goes to: the newest that satisfies `requirement`, whatever is
    /// pinned.
    pub(crate) fn settle_upgrade(&self, name: &str, requirement: &VersionReq) -> (r: (
        Result<Release, InstallError>,
        Ghost<Result<PluginReleases, IndexError>>,
    ))
        ensures
            self.catalogue().publishes(name, r.1@),
            settled_view(r.0) == upgraded_to(r.1@, name@, requirement@),
    {
        let found = index::resolve(&self.index, name, requirement);
        let ghost said = choose|answer: Result<PluginReleases, IndexError>| #[trigger]
            self.index.publishes(name, answer) && index::resolved(found)
                == index::answered_resolution(answer, name@, requirement@);
        match found {
            Err(error) => (Err(InstallError::Index(error)), Ghost(said)),
            Ok(release) => (Ok(release), Ghost(said)),
        }
    }

    /// Fetches one specific release, if the lockfile allows it.
    pub fn fetch_release(&self, name: &str, release: &Release, lockfile: &Lockfile) -> (r: Result<
        Vec<u8>,
        InstallError,
    >)
        requires
            lockfile.wf(),
        ensures
            fetched(self.packages(), name@, release@, lockfile.pinned(name@), r),
    {
        match release_reference(name, release, lockfile) {
            Err(error) => Err(error),
            Ok(reference) => {
                let at = reference.as_str();
                let answer = self.source.fetch(at);
                proof {
                    assert(self.packages().sends(at, answer));
                }
                match answer {
                    Err(error) => Err(InstallError::Source(error)),
                    Ok(archive) => Ok(archive),
                }
            },
        }
    }
}

/// What a commit does next.
#[derive(Debug, Clone, Copy, PartialEq, Eq, Structural)]
pub enum CommitStep {
    /// Look whether a version that was moved aside before is still there.
    LookForPrevious,
    /// Delete it.
    DropPrevious,
    /// Look whether a version is installed.
    LookForTarget,
    /// Move the installed version aside.
    MoveAside,
    /// Move the staged version in. `had` says whether one was moved aside.
    MoveIn { had: bool },
    /// Put the version that was moved aside back.
    PutBack,
    /// Delete the staged version, then fail.
    DropStaged,
    /// Delete the version that was moved aside.
    DropOld,
    /// The staged version is installed.
    Done,
    /// It is not, and the error that was met is handed on.
    Failed,
}

/// What came of a step: what was looked for is there or not, what was done succeeded or not.
#[derive(Debug, Clone, Copy, PartialEq, Eq, Structural)]
pub enum StepOutcome {
    Yes,
    No,
}

/// What a commit does after a step. Putting back and the last deletions are not allowed to
/// stop it, whatever comes of them.
pub open spec fn next_step(step: CommitStep, outcome: StepOutcome) -> CommitStep {
    match (step, outcome) {
        (CommitStep::LookForPrevious, StepOutcome::Yes) => CommitStep::DropPrevious,
        (CommitStep::LookForPrevious, StepOutcome::No) => CommitStep::LookForTarget,
        (CommitStep::DropPrevious, StepOutcome::Yes) => CommitStep::LookForTarget,
        (CommitStep::DropPrevious, StepOutcome::No) => CommitStep::Failed,
        (CommitStep::LookForTarget, StepOutcome::Yes) => CommitStep::MoveAside,
        (CommitStep::LookForTarget, StepOutcome::No) => CommitStep::MoveIn { had: false },
        (CommitStep::MoveAside, StepOutcome::Yes) => CommitStep::MoveIn { had: true },
        (CommitStep::MoveAside, StepOutcome::No) => CommitStep::Failed,
        (CommitStep::MoveIn { had }, StepOutcome::Yes) => if had {
            CommitStep::DropOld
        } else {
            CommitStep::Done
        },
        (CommitStep::MoveIn { had }, StepOutcome::No) => if had {
            CommitStep::PutBack
        } else {
            CommitStep::DropStaged
        },
        (CommitStep::PutBack, _) => CommitStep::DropStaged,
        (CommitStep::DropStaged, _) => CommitStep::Failed,
        (CommitStep::DropOld, _) => CommitStep::Done,
        (CommitStep::Done, _) => CommitStep::Done,
        (CommitStep::Failed, _) => CommitStep::Failed,
    }
}

/// What a commit does after a step.
pub fn commit_next(step: CommitStep, outcome: StepOutcome) -> (r: CommitStep)
    ensures
        r == next_step(step, outcome),
{
    match (step, outcome) {
        (CommitStep::LookForPrevious, StepOutcome::Yes) => CommitStep::DropPrevious,
        (CommitStep::LookForPrevious, StepOutcome::No) => CommitStep::LookForTarget,
        (CommitStep::DropPrevious, StepOutcome::Yes) => CommitStep::LookForTarget,
        (CommitStep::DropPrevious, StepOutcome::No) => CommitStep::Failed,
        (CommitStep::LookForTarget, StepOutcome::Yes) => CommitStep::MoveAside,
        (CommitStep::LookForTarget, StepOutcome::No) => CommitStep::MoveIn { had: false },
        (CommitStep::MoveAside, StepOutcome::Yes) => CommitStep::MoveIn { had: true },
        (CommitStep::MoveAside, StepOutcome::No) => CommitStep::Failed,
        (CommitStep::MoveIn { had }, StepOutcome::Yes) => if had {
            CommitStep::DropOld
        } else {
            CommitStep::Done
        },
        (CommitStep::MoveIn { had }, StepOutcome::No) => if had {
            CommitStep::PutBack
        } else {
            CommitStep::DropStaged
        },
        (CommitStep::PutBack, _) => CommitStep::DropStaged,
        (CommitStep::DropStaged, _) => CommitStep::Failed,
        (CommitStep::DropOld, _) => CommitStep::Done,
        (CommitStep::Done, _) => CommitStep::Done,
        (CommitStep::Failed, _) => CommitStep::Failed,
    }
}

/// What a directory holds.
pub enum Held {
    /// Nothing.
    Nothing,
    /// The version that was installed before the commit, whole.
    Old,
    /// The version that was staged, whole.
    New,
    /// Something else, or part of something.
    Scrap,
}

/// The three directories of a commit.
pub struct Disk {
    pub target: Held,
    pub previous: Held,
    pub staging: Held,
}

/// Whether a disk can look so after a step, given how it looked before. A rename that fails
/// changes nothing; a deletion that fails may have deleted part.
pub open spec fn can_become(before: Disk, step: CommitStep, outcome: StepOutcome, after: Disk) -> bool {
    match (step, outcome) {
        (CommitStep::LookForPrevious, StepOutcome::Yes) => after == before && !(before.previous
            is Nothing),
        (CommitStep::LookForPrevious, StepOutcome::No) => after == before && before.previous
            is Nothing,
        (CommitStep::LookForTarget, StepOutcome::Yes) => after == before && !(before.target
            is Nothing),
        (CommitStep::LookForTarget, StepOutcome::No) => after == before && before.target is Nothing,
        (CommitStep::DropPrevious, StepOutcome::Yes) => after == (Disk {
            previous: Held::Nothing,
            ..before
        }),
        (CommitStep::DropPrevious, StepOutcome::No) => exists|left: Held|
            after == (Disk { previous: left, ..before }),
        (CommitStep::MoveAside, StepOutcome::Yes) => after == (Disk {
            target: Held::Nothing,
            previous: before.target,
            ..before
        }),
        (CommitStep::MoveIn { .. }, StepOutcome::Yes) => after == (Disk {
            target: before.staging,
            staging: Held::Nothing,
            ..before
        }),
        (CommitStep::PutBack, StepOutcome::Yes) => after == (Disk {
            target: before.previous,
            previous: Held::Nothing,
            ..before
        }),
        (CommitStep::DropStaged, _) => exists|left: Held|
            after == (Disk { staging: left, ..before }),
        (CommitStep::DropOld, _) => exists|left: Held|
            after == (Disk { previous: left, ..before }),
        _ => after == before,
    }
}

/// What holds before each step of a commit of a new version over an old one.
pub open spec fn commit_holds(step: CommitStep, disk: Disk) -> bool {
    match step {
        CommitStep::LookForPrevious => disk.target is Old && disk.staging is New,
        CommitStep::DropPrevious => disk.target is Old && disk.staging is New,
        CommitStep::LookForTarget => disk.target is Old && disk.staging is New,
        CommitStep::MoveAside => disk.target is Old && disk.staging is New,
        CommitStep::MoveIn { had } => had && disk.target is Nothing && disk.previous is Old
            && disk.staging is New,
        CommitStep::PutBack => disk.target is Nothing && disk.previous is Old && disk.staging
            is New,
        CommitStep::DropStaged => disk.target is Old || disk.previous is Old,
        CommitStep::DropOld => disk.target is New,
        CommitStep::Done => disk.target is New,
        CommitStep::Failed => disk.target is Old || disk.previous is Old,
    }
}

/// Whether the old version, or the new one in its place, is whole.
pub open spec fn some_version_is_whole(disk: Disk) -> bool {
    disk.target is Old || disk.previous is Old || disk.target is New
}

/// Each step of a commit keeps what holds before it, whatever comes of the step: so an
/// interrupted commit leaves the old version, in its place or beside it, or the new one in
/// place.
pub proof fn interrupted_commit_loses_nothing(
    step: CommitStep,
    before: Disk,
    outcome: StepOutcome,
    after: Disk,
)
    requires
        commit_holds(step, before),
        can_become(before, step, outcome, after),
    ensures
        commit_holds(next_step(step, outcome), after),
        some_version_is_whole(before),
        some_version_is_whole(after),
{
}

/// A commit that is done has put the new version in place, and one that failed has not
/// deleted the old one.
pub proof fn commit_ends_well(step: CommitStep, disk: Disk)
    requires
        commit_holds(step, disk),
    ensures
        step is Done ==> disk.target is New,
        step is Failed ==> disk.target is Old || disk.previous is Old,
{
}

/// What holds before each step of a commit where nothing is installed.
pub open spec fn first_commit_holds(step: CommitStep, disk: Disk) -> bool {
    match step {
        CommitStep::LookForPrevious => disk.target is Nothing && disk.staging is New,
        CommitStep::DropPrevious => disk.target is Nothing && disk.staging is New,
        CommitStep::LookForTarget => disk.target is Nothing && disk.staging is New,
        CommitStep::MoveAside => false,
        CommitStep::MoveIn { had } => !had && disk.target is Nothing && disk.staging is New,
        CommitStep::PutBack => false,
        CommitStep::DropStaged => disk.target is Nothing,
        CommitStep::DropOld => false,
        CommitStep::Done => disk.target is New,
        CommitStep::Failed => disk.target is Nothing,
    }
}

/// A first install is whole or is not there: each step of a commit where nothing is installed
/// keeps what holds before it, so at every step the target is empty or holds the staged version,
/// and it holds it when the commit is done and is empty when the commit failed.
pub proof fn first_commit_is_all_or_nothing(
    step: CommitStep,
    before: Disk,
    outcome: StepOutcome,
    after: Disk,
)
    requires
        first_commit_holds(step, before),
        can_become(before, step, outcome, after),
    ensures
        first_commit_holds(next_step(step, outcome), after),
        before.target is Nothing || before.target is New,
        step is Done ==> before.target is New,
        step is Failed ==> before.target is Nothing,
{
}

/// What was installed is what its pin accepts: the pin of a staged plugin accepts the bytes
/// and the version that were checked, from the signer that the release names, if it does.
pub proof fn installed_matches_its_pin(staged: StagedModel, signer: crate::signature::SignerModel)
    requires
        staged.release.signer is Some ==> crate::signature::identity_of(signer)
            == staged.release.signer,
        staged.release.issuer is Some ==> crate::signature::issuer_of(signer)
            == staged.release.issuer,
    ensures
        lock::pin_fault(
            staged.name,
            Some(staged_pin(staged)),
            staged.manifest.published(),
            staged.digest.fingerprint(),
            signer,
        ) is None,
{
    let root = crate::signature::sha256_of(crate::signature::layout(staged.digest.covered()));
    lock::fingerprint_form(root);
}

} // verus!
