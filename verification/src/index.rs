//! The index protocol: how a host learns that a plugin exists and what to pin.
//!
//! An index is two static documents: the catalog, and the releases of each plugin. It is not
//! trusted: it maps a name to candidate digests, and every claim it makes is checked against
//! the package that actually arrives. A document past its expiry is refused, because it may
//! be a snapshot that someone withheld an update from.

use crate::clock;
use crate::clock::parsed_time;
use crate::lock;
use crate::lock::{bare_hex, is_sha256, is_sha256_hex, LockedPlugin, Pin};
use crate::path;
use crate::resolve::copy_list;
use crate::signature::{copy_opt, opt_str};
use crate::text;
use crate::version;
use crate::version::{
    is_version, not_after, requirement_allows, version_order, Order, Version, VersionReq,
};
use vstd::prelude::*;
use vstd::string::*;

verus! {

/// Schema version of the index documents this library writes and accepts.
pub const INDEX_SCHEMA: u32 = 1;

/// Path of the catalog document, relative to an index base.
pub const CATALOG_PATH: &'static str = "v1/index.json";

/// The path of a plugin's release document.
pub open spec fn releases_path_of(name: Seq<char>) -> Seq<char> {
    "v1/plugins/"@ + name + ".json"@
}

/// Path of one plugin's release document, relative to an index base.
pub fn releases_path(name: &str) -> (r: String)
    ensures
        r@ == releases_path_of(name@),
{
    let mut out = "v1/plugins/".to_owned();
    out.append(name);
    out.append(".json");
    out
}

/// Why an index could not answer.
#[derive(Debug, Clone, PartialEq, Eq)]
pub enum IndexError {
    /// The index has no document for this plugin.
    UnknownPlugin(String),
    /// No release satisfies the requirement.
    NoMatch {
        /// Plugin name.
        name: String,
        /// The requirement that matched nothing.
        requirement: String,
    },
    /// The document could not be read or parsed.
    Malformed(String),
    /// The document is past its expiry, so it may be a withheld snapshot.
    Stale {
        /// Which document.
        what: String,
        /// When it expired.
        expired: String,
    },
    /// The index could not be reached.
    Transport(String),
}

/// Why an index could not answer, apart from how it is stored.
pub enum IndexFault {
    UnknownPlugin(Seq<char>),
    NoMatch { name: Seq<char>, requirement: Seq<char> },
    Malformed(Seq<char>),
    Stale { what: Seq<char>, expired: Seq<char> },
    Transport(Seq<char>),
}

impl View for IndexError {
    type V = IndexFault;

    open spec fn view(&self) -> IndexFault {
        match *self {
            IndexError::UnknownPlugin(name) => IndexFault::UnknownPlugin(name@),
            IndexError::NoMatch { name, requirement } => IndexFault::NoMatch {
                name: name@,
                requirement: requirement@,
            },
            IndexError::Malformed(message) => IndexFault::Malformed(message@),
            IndexError::Stale { what, expired } => IndexFault::Stale {
                what: what@,
                expired: expired@,
            },
            IndexError::Transport(message) => IndexFault::Transport(message@),
        }
    }
}

impl IndexFault {
    /// What the error says.
    pub open spec fn message(self) -> Seq<char> {
        match self {
            IndexFault::UnknownPlugin(name) => "the index has no plugin `"@ + name + "`"@,
            IndexFault::NoMatch { name, requirement } => "no release of `"@ + name
                + "` satisfies "@ + requirement,
            IndexFault::Malformed(message) => "malformed index: "@ + message,
            IndexFault::Stale { what, expired } => what + " expired at "@ + expired
                + "; refusing it rather than trusting a snapshot that may have been withheld"@,
            IndexFault::Transport(message) => "reaching the index: "@ + message,
        }
    }
}

impl IndexError {
    /// The error written out.
    pub fn to_string(&self) -> (r: String)
        ensures
            r@ == self@.message(),
    {
        match self {
            IndexError::UnknownPlugin(name) => {
                let mut out = "the index has no plugin `".to_owned();
                out.append(name.as_str());
                out.append("`");
                out
            },
            IndexError::NoMatch { name, requirement } => {
                let mut out = "no release of `".to_owned();
                out.append(name.as_str());
                out.append("` satisfies ");
                out.append(requirement.as_str());
                out
            },
            IndexError::Malformed(message) => {
                let mut out = "malformed index: ".to_owned();
                out.append(message.as_str());
                out
            },
            IndexError::Stale { what, expired } => {
                let mut out = what.clone();
                out.append(" expired at ");
                out.append(expired.as_str());
                out.append(
                    "; refusing it rather than trusting a snapshot that may have been withheld",
                );
                out
            },
            IndexError::Transport(message) => {
                let mut out = "reaching the index: ".to_owned();
                out.append(message.as_str());
                out
            },
        }
    }
}

/// The fault of a check.
pub open spec fn index_fault(r: Result<(), IndexError>) -> Option<IndexFault> {
    match r {
        Ok(_) => None,
        Err(error) => Some(error@),
    }
}

/// Fields every index document carries.
pub trait IndexDocument {
    /// What the document declares: its schema, when it was generated and when it stops being
    /// believable.
    spec fn stamp(&self) -> (u32, Option<Seq<char>>, Option<Seq<char>>);

    /// Schema version the document declares.
    fn schema(&self) -> (r: u32)
        ensures
            r == self.stamp().0,
    ;

    /// When the document was generated, RFC 3339.
    fn updated(&self) -> (r: Option<&str>)
        ensures
            opt_str(r) == self.stamp().1,
    ;

    /// When the document stops being believable, RFC 3339.
    fn expires(&self) -> (r: Option<&str>)
        ensures
            opt_str(r) == self.stamp().2,
    ;
}

/// How strictly a client treats a document's expiry.
#[derive(Debug, Clone, Copy, PartialEq, Eq, Structural)]
pub enum Freshness {
    /// Every document must carry an unexpired `expires`. The right setting for an index
    /// reached over a network you do not control.
    Required,
    /// Honour `expires` when present, accept a document without one.
    Lenient,
    /// Ignore expiry entirely. For offline use and tests.
    Ignored,
}

impl Default for Freshness {
    fn default() -> (r: Freshness)
        ensures
            r == Freshness::Required,
    {
        Freshness::Required
    }
}

/// What is wrong with the expiry of a document at a point in time, if anything.
pub open spec fn staleness(
    freshness: Freshness,
    expires: Option<Seq<char>>,
    what: Seq<char>,
    now: i128,
) -> Option<IndexFault> {
    if freshness == Freshness::Ignored {
        None
    } else {
        match expires {
            None => if freshness == Freshness::Required {
                Some(
                    IndexFault::Malformed(
                        what + " carries no `expires`, and this client requires one"@,
                    ),
                )
            } else {
                None
            },
            Some(expires) => match parsed_time(expires) {
                Err(message) => Some(
                    IndexFault::Malformed(
                        what + ": `"@ + expires + "` is not an RFC 3339 timestamp: "@ + message,
                    ),
                ),
                Ok(deadline) => if now > deadline {
                    Some(IndexFault::Stale { what, expired: expires })
                } else {
                    None
                },
            },
        }
    }
}

/// What is wrong with the expiry of a document, given how its expiry was read.
pub open spec fn staleness_read(
    freshness: Freshness,
    expires: Option<(Seq<char>, Result<i128, Seq<char>>)>,
    what: Seq<char>,
    now: i128,
) -> Option<IndexFault> {
    match (freshness, expires) {
        (Freshness::Ignored, _) => None,
        (Freshness::Required, None) => Some(
            IndexFault::Malformed(what + " carries no `expires`, and this client requires one"@),
        ),
        (Freshness::Lenient, None) => None,
        (_, Some((expires, Err(message)))) => Some(
            IndexFault::Malformed(
                what + ": `"@ + expires + "` is not an RFC 3339 timestamp: "@ + message,
            ),
        ),
        (_, Some((expires, Ok(deadline)))) => if now > deadline {
            Some(IndexFault::Stale { what, expired: expires })
        } else {
            None
        },
    }
}

/// The view of an expiry that was read.
pub open spec fn read_view(read: Option<(&str, Result<i128, String>)>) -> Option<
    (Seq<char>, Result<i128, Seq<char>>),
> {
    match read {
        Some((expires, deadline)) => Some((expires@, clock::time_view(deadline))),
        None => None,
    }
}

impl Freshness {
    /// Checks the expiry of a document, given how it was read, against a clock.
    pub fn check_read(
        self,
        expires: Option<(&str, Result<i128, String>)>,
        what: &str,
        now: i128,
    ) -> (r: Result<(), IndexError>)
        ensures
            index_fault(r) == staleness_read(self, read_view(expires), what@, now),
    {
        if self == Freshness::Ignored {
            return Ok(());
        }
        match expires {
            None => match self {
                Freshness::Required => {
                    let mut out = what.to_owned();
                    out.append(" carries no `expires`, and this client requires one");
                    Err(IndexError::Malformed(out))
                },
                _ => Ok(()),
            },
            Some((text, deadline)) => match deadline {
                Err(message) => {
                    let mut out = what.to_owned();
                    out.append(": `");
                    out.append(text);
                    out.append("` is not an RFC 3339 timestamp: ");
                    out.append(message.as_str());
                    Err(IndexError::Malformed(out))
                },
                Ok(deadline) => {
                    if now > deadline {
                        Err(IndexError::Stale { what: what.to_owned(), expired: text.to_owned() })
                    } else {
                        Ok(())
                    }
                },
            },
        }
    }

    /// Checks a document against a caller-supplied clock, in nanoseconds since the epoch.
    pub fn check_at<D: IndexDocument>(self, document: &D, what: &str, now: i128) -> (r: Result<
        (),
        IndexError,
    >)
        ensures
            index_fault(r) == staleness(self, document.stamp().2, what@, now),
    {
        if self == Freshness::Ignored {
            return Ok(());
        }
        let read = match document.expires() {
            None => None,
            Some(expires) => Some((expires, clock::parse_time(expires))),
        };
        self.check_read(read, what, now)
    }

    /// Checks a document against the current time.
    pub fn check<D: IndexDocument>(self, document: &D, what: &str) -> (r: Result<(), IndexError>)
        ensures
            exists|now: i128|
                index_fault(r) == #[trigger] staleness(self, document.stamp().2, what@, now),
    {
        let now: i128 = clock::now_nanos();
        self.check_at(document, what, now)
    }
}

/// The catalog: which plugins this index knows about.
#[derive(Debug, PartialEq, Eq)]
pub struct Catalog {
    /// Schema version.
    pub schema: u32,
    /// Human-readable name of this index.
    pub name: Option<String>,
    /// When this document was generated, RFC 3339.
    pub updated: Option<String>,
    /// When this document stops being believable, RFC 3339.
    pub expires: Option<String>,
    /// Plugin names, each of which has a release document.
    pub plugins: Vec<String>,
}

/// The schema of a document that names none.
pub fn default_schema() -> (r: u32)
    ensures
        r == INDEX_SCHEMA,
{
    INDEX_SCHEMA
}

fn as_text(s: &Option<String>) -> (r: Option<&str>)
    ensures
        opt_str(r) == text::opt(*s),
{
    match s {
        Some(s) => Some(s.as_str()),
        None => None,
    }
}

impl IndexDocument for Catalog {
    open spec fn stamp(&self) -> (u32, Option<Seq<char>>, Option<Seq<char>>) {
        (self.schema, text::opt(self.updated), text::opt(self.expires))
    }

    fn schema(&self) -> (r: u32) {
        self.schema
    }

    fn updated(&self) -> (r: Option<&str>) {
        as_text(&self.updated)
    }

    fn expires(&self) -> (r: Option<&str>) {
        as_text(&self.expires)
    }
}

/// One published build.
#[derive(Debug, PartialEq, Eq)]
pub struct Release {
    /// Semver version, which must match the manifest inside the package.
    pub version: Version,
    /// Root digest of the unpacked directory as `sha256:<hex>`: the value that gets pinned,
    /// and the only field here with any weight.
    pub digest: String,
    /// Where to fetch the package, as a URL. A hint.
    pub source: Option<String>,
    /// Identity expected to have signed this build.
    pub signer: Option<String>,
    /// Issuer expected to have vouched for the signer.
    pub issuer: Option<String>,
    /// Capabilities the manifest declares, for browsing. Advisory only.
    pub capabilities: Vec<String>,
    /// Whether this release has been withdrawn. A yank keeps existing pins working and stops
    /// new ones being made.
    pub yanked: bool,
    /// Why it was yanked.
    pub yanked_reason: Option<String>,
}

/// What a release is, apart from how it is stored.
pub struct ReleaseModel {
    pub version: Seq<char>,
    pub digest: Seq<char>,
    pub source: Option<Seq<char>>,
    pub signer: Option<Seq<char>>,
    pub issuer: Option<Seq<char>>,
    pub capabilities: Seq<Seq<char>>,
    pub yanked: bool,
    pub yanked_reason: Option<Seq<char>>,
}

impl View for Release {
    type V = ReleaseModel;

    open spec fn view(&self) -> ReleaseModel {
        ReleaseModel {
            version: self.version@,
            digest: self.digest@,
            source: text::opt(self.source),
            signer: text::opt(self.signer),
            issuer: text::opt(self.issuer),
            capabilities: text::texts(self.capabilities@),
            yanked: self.yanked,
            yanked_reason: text::opt(self.yanked_reason),
        }
    }
}

impl Clone for Release {
    fn clone(&self) -> (r: Self)
        ensures
            r@ == self@,
    {
        Release {
            version: self.version.clone(),
            digest: self.digest.clone(),
            source: copy_opt(&self.source),
            signer: copy_opt(&self.signer),
            issuer: copy_opt(&self.issuer),
            capabilities: copy_list(&self.capabilities),
            yanked: self.yanked,
            yanked_reason: copy_opt(&self.yanked_reason),
        }
    }
}

/// What is wrong with the digest of a release, if anything.
pub open spec fn digest_fault(plugin: Seq<char>, release: ReleaseModel) -> Option<IndexFault> {
    if is_sha256(bare_hex(release.digest)) {
        None
    } else {
        Some(
            IndexFault::Malformed(
                "`"@ + plugin + "` "@ + release.version + ": `"@ + release.digest
                    + "` is not a sha256 digest"@,
            ),
        )
    }
}

/// The pin a release would produce.
pub open spec fn pin_of(release: ReleaseModel) -> Pin {
    Pin {
        digest: lock::normalized(release.digest),
        version: Some(release.version),
        signer: release.signer,
        issuer: release.issuer,
        source: release.source,
    }
}

impl Release {
    /// A release pinning one digest.
    pub fn new(version: Version, digest: &str) -> (r: Release)
        ensures
            r@ == (ReleaseModel {
                version: version@,
                digest: digest@,
                source: None,
                signer: None,
                issuer: None,
                capabilities: Seq::empty(),
                yanked: false,
                yanked_reason: None,
            }),
    {
        let capabilities: Vec<String> = Vec::new();
        proof {
            assert(text::texts(capabilities@) =~= Seq::<Seq<char>>::empty());
        }
        Release {
            version,
            digest: digest.to_owned(),
            source: None,
            signer: None,
            issuer: None,
            capabilities,
            yanked: false,
            yanked_reason: None,
        }
    }

    /// Records where the package can be fetched.
    pub fn from_source(self, source: &str) -> (r: Release)
        ensures
            r@ == (ReleaseModel { source: Some(source@), ..self@ }),
    {
        let mut out = self;
        out.source = Some(source.to_owned());
        out
    }

    /// Records who signed it.
    pub fn signed_by(self, identity: &str) -> (r: Release)
        ensures
            r@ == (ReleaseModel { signer: Some(identity@), ..self@ }),
    {
        let mut out = self;
        out.signer = Some(identity.to_owned());
        out
    }

    /// The digest as bare lowercase hex.
    pub fn hex(&self) -> (r: String)
        ensures
            r@ == text::lower(bare_hex(self.digest@)),
    {
        text::to_lower(lock::hex_of(self.digest.as_str()).as_str())
    }

    /// Checks the digest is a well-formed sha256.
    pub fn validate(&self, plugin: &str) -> (r: Result<(), IndexError>)
        ensures
            index_fault(r) == digest_fault(plugin@, self@),
    {
        let hex = lock::hex_of(self.digest.as_str());
        if !is_sha256_hex(hex.as_str()) {
            let mut out = "`".to_owned();
            out.append(plugin);
            out.append("` ");
            out.append(self.version.as_str());
            out.append(": `");
            out.append(self.digest.as_str());
            out.append("` is not a sha256 digest");
            return Err(IndexError::Malformed(out));
        }
        Ok(())
    }

    /// The pin this release would produce.
    pub fn to_pin(&self) -> (r: LockedPlugin)
        ensures
            r@ == pin_of(self@),
    {
        let mut pin = LockedPlugin::new(self.digest.as_str()).at_version(self.version.clone());
        match &self.signer {
            Some(signer) => {
                pin = pin.signed_by(signer.as_str());
            },
            None => {},
        }
        match &self.issuer {
            Some(issuer) => {
                pin = pin.issued_by(issuer.as_str());
            },
            None => {},
        }
        match &self.source {
            Some(source) => {
                pin = pin.fetched_from(source.as_str());
            },
            None => {},
        }
        pin
    }
}

/// Every published release of one plugin.
#[derive(Debug, PartialEq, Eq)]
pub struct PluginReleases {
    /// Schema version.
    pub schema: u32,
    /// Plugin name, which must match the document's path.
    pub name: String,
    /// When this document was generated, RFC 3339.
    pub updated: Option<String>,
    /// When this document stops being believable, RFC 3339.
    pub expires: Option<String>,
    /// Published releases, in any order.
    pub releases: Vec<Release>,
}

impl IndexDocument for PluginReleases {
    open spec fn stamp(&self) -> (u32, Option<Seq<char>>, Option<Seq<char>>) {
        (self.schema, text::opt(self.updated), text::opt(self.expires))
    }

    fn schema(&self) -> (r: u32) {
        self.schema
    }

    fn updated(&self) -> (r: Option<&str>) {
        as_text(&self.updated)
    }

    fn expires(&self) -> (r: Option<&str>) {
        as_text(&self.expires)
    }
}

/// Whether a release may be chosen for a requirement.
pub open spec fn eligible(release: Release, requirement: Seq<char>) -> bool {
    !release.yanked && requirement_allows(requirement, release.version@)
}

/// The place of the newest of the first `n` releases that may be chosen, the last of those
/// that are equally new.
pub open spec fn best_upto(releases: Seq<Release>, requirement: Seq<char>, n: int) -> Option<int>
    decreases n,
{
    if n <= 0 {
        None
    } else {
        let best = best_upto(releases, requirement, n - 1);
        if !eligible(releases[n - 1], requirement) {
            best
        } else {
            match best {
                None => Some(n - 1),
                Some(at) => if version_order(releases[at].version@, releases[n - 1].version@)
                    == Order::Greater {
                    Some(at)
                } else {
                    Some(n - 1)
                },
            }
        }
    }
}

/// The place of the newest release that may be chosen.
pub open spec fn best(releases: Seq<Release>, requirement: Seq<char>) -> Option<int> {
    best_upto(releases, requirement, releases.len() as int)
}

/// Whether a release is the newest that may be chosen: every other that may be chosen is of the
/// same version, or of an older one.
pub open spec fn newest_of(releases: Seq<Release>, requirement: Seq<char>, chosen: Release) -> bool {
    &&& releases.contains(chosen)
    &&& eligible(chosen, requirement)
    &&& forall|i: int|
        0 <= i < releases.len() && eligible(#[trigger] releases[i], requirement)
            ==> not_after(releases[i].version@, chosen.version@)
}

/// The place of the first release at or after `from` of a version.
pub open spec fn exact_from(releases: Seq<Release>, version: Seq<char>, from: int) -> Option<int>
    decreases releases.len() - from,
{
    if from < 0 || from >= releases.len() {
        None
    } else if releases[from].version@ == version {
        Some(from)
    } else {
        exact_from(releases, version, from + 1)
    }
}

/// Whether one of the first `n` releases is of a version.
pub open spec fn listed(releases: Seq<Release>, version: Seq<char>, n: int) -> bool {
    exists|i: int| 0 <= i < n && (#[trigger] releases[i]).version@ == version
}

/// What is wrong with the releases from `from` on, if anything: a version that was listed
/// before, or a digest that is none.
pub open spec fn release_fault_from(
    plugin: Seq<char>,
    releases: Seq<Release>,
    from: int,
) -> Option<IndexFault>
    decreases releases.len() - from,
{
    if from < 0 || from >= releases.len() {
        None
    } else if listed(releases, releases[from].version@, from) {
        Some(
            IndexFault::Malformed(
                "`"@ + plugin + "` lists version "@ + releases[from].version@
                    + " more than once"@,
            ),
        )
    } else {
        match digest_fault(plugin, releases[from]@) {
            Some(fault) => Some(fault),
            None => release_fault_from(plugin, releases, from + 1),
        }
    }
}

/// What is wrong with a release document, if anything.
pub open spec fn document_fault(document: PluginReleases, expected: Seq<char>) -> Option<IndexFault> {
    if document.schema > INDEX_SCHEMA {
        Some(
            IndexFault::Malformed(
                "`"@ + document.name@ + "` declares schema "@ + text::decimal(
                    document.schema as nat,
                ) + ", newer than this client understands ("@ + text::decimal(INDEX_SCHEMA as nat)
                    + ")"@,
            ),
        )
    } else if document.name@ != expected {
        Some(
            IndexFault::Malformed(
                "document for `"@ + expected + "` declares the name `"@ + document.name@ + "`"@,
            ),
        )
    } else {
        release_fault_from(document.name@, document.releases@, 0)
    }
}

/// Which of two releases is kept, given how the version of the first compares with that of the
/// second: the newer, and of equals the second.
pub fn keep_newer(first: usize, second: usize, order: Order) -> (r: usize)
    ensures
        r == if order == Order::Greater {
            first
        } else {
            second
        },
{
    match order {
        Order::Greater => first,
        _ => second,
    }
}

impl PluginReleases {
    /// The newest release satisfying `requirement`, skipping yanked ones.
    ///
    /// Ordering is by version, not by the order the document lists them, so an index cannot
    /// steer a client by reordering its own file: no other release that may be chosen is
    /// newer.
    pub fn best_match(&self, requirement: &VersionReq) -> (r: Option<&Release>)
        ensures
            match best(self.releases@, requirement@) {
                Some(at) => r matches Some(release) && 0 <= at < self.releases@.len() && *release
                    == self.releases@[at] && newest_of(self.releases@, requirement@, *release),
                None => r is None && forall|i: int|
                    0 <= i < self.releases@.len() ==> !eligible(
                        #[trigger] self.releases@[i],
                        requirement@,
                    ),
            },
    {
        let n: usize = self.releases.len();
        let ghost all = self.releases@;
        let mut found: Option<usize> = None;
        let mut i: usize = 0;
        while i < n
            invariant
                n == self.releases.len(),
                all == self.releases@,
                i <= n,
                match best_upto(all, requirement@, i as int) {
                    Some(at) => found matches Some(p) && p == at && 0 <= at < i && eligible(
                        all[at],
                        requirement@,
                    ) && forall|j: int|
                        0 <= j < i && j != at && eligible(#[trigger] all[j], requirement@)
                            ==> is_version(all[j].version@) && not_after(
                            all[j].version@,
                            all[at].version@,
                        ),
                    None => found is None && forall|j: int|
                        0 <= j < i ==> !eligible(#[trigger] all[j], requirement@),
                },
            decreases n - i,
        {
            let release = &self.releases[i];
            let ghost before = best_upto(all, requirement@, i as int);
            if !release.yanked && requirement.matches(&release.version) {
                match found {
                    None => {
                        found = Some(i);
                    },
                    Some(at) => {
                        let order = self.releases[at].version.order(&release.version);
                        proof {
                            let old_best = all[at as int].version@;
                            let new = all[i as int].version@;
                            assert forall|j: int|
                                0 <= j < i && j != at && eligible(#[trigger] all[j], requirement@)
                                    && order != Order::Greater implies not_after(
                                all[j].version@,
                                new,
                            ) by {
                                assert(not_after(all[j].version@, old_best));
                            }
                        }
                        found = Some(keep_newer(at, i, order));
                    },
                }
            }
            i = i + 1;
        }
        match found {
            Some(at) => {
                proof {
                    assert(all.contains(all[at as int]));
                }
                Some(&self.releases[at])
            },
            None => None,
        }
    }

    /// One exact version, yanked or not.
    pub fn exact(&self, version: &Version) -> (r: Option<&Release>)
        ensures
            match exact_from(self.releases@, version@, 0) {
                Some(at) => r matches Some(release) && 0 <= at < self.releases@.len() && *release
                    == self.releases@[at],
                None => r is None,
            },
    {
        let n: usize = self.releases.len();
        let mut i: usize = 0;
        while i < n
            invariant
                n == self.releases.len(),
                i <= n,
                exact_from(self.releases@, version@, 0) == exact_from(
                    self.releases@,
                    version@,
                    i as int,
                ),
            decreases n - i,
        {
            if self.releases[i].version.same(version) {
                return Some(&self.releases[i]);
            }
            i = i + 1;
        }
        None
    }

    /// Checks the document is self-consistent and one this client understands.
    pub fn validate(&self, expected_name: &str) -> (r: Result<(), IndexError>)
        ensures
            index_fault(r) == document_fault(*self, expected_name@),
    {
        if self.schema > INDEX_SCHEMA {
            let mut out = "`".to_owned();
            out.append(self.name.as_str());
            out.append("` declares schema ");
            out.append(text::number(self.schema as u64).as_str());
            out.append(", newer than this client understands (");
            out.append(text::number(INDEX_SCHEMA as u64).as_str());
            out.append(")");
            return Err(IndexError::Malformed(out));
        }
        if !text::same(self.name.as_str(), expected_name) {
            let mut out = "document for `".to_owned();
            out.append(expected_name);
            out.append("` declares the name `");
            out.append(self.name.as_str());
            out.append("`");
            return Err(IndexError::Malformed(out));
        }
        let n: usize = self.releases.len();
        let mut i: usize = 0;
        while i < n
            invariant
                n == self.releases.len(),
                i <= n,
                self.schema <= INDEX_SCHEMA,
                self.name@ == expected_name@,
                document_fault(*self, expected_name@) == release_fault_from(
                    self.name@,
                    self.releases@,
                    i as int,
                ),
            decreases n - i,
        {
            let release = &self.releases[i];
            if self.lists(&release.version, i) {
                let mut out = "`".to_owned();
                out.append(self.name.as_str());
                out.append("` lists version ");
                out.append(release.version.as_str());
                out.append(" more than once");
                return Err(IndexError::Malformed(out));
            }
            match release.validate(self.name.as_str()) {
                Err(error) => {
                    return Err(error);
                },
                Ok(_) => {},
            }
            i = i + 1;
        }
        Ok(())
    }

    /// Whether one of the first `n` releases is of a version.
    fn lists(&self, version: &Version, n: usize) -> (r: bool)
        requires
            n <= self.releases@.len(),
        ensures
            r == listed(self.releases@, version@, n as int),
    {
        let mut i: usize = 0;
        while i < n
            invariant
                i <= n <= self.releases@.len(),
                forall|j: int| 0 <= j < i ==> (#[trigger] self.releases@[j]).version@ != version@,
            decreases n - i,
        {
            if self.releases[i].version.same(version) {
                proof {
                    assert(self.releases@[i as int].version@ == version@);
                }
                return true;
            }
            i = i + 1;
        }
        false
    }
}

/// What resolving a requirement gives.
pub open spec fn resolution(document: PluginReleases, name: Seq<char>, requirement: Seq<char>) -> Result<
    ReleaseModel,
    IndexFault,
> {
    match best(document.releases@, requirement) {
        Some(at) => Ok(document.releases@[at]@),
        None => Err(IndexFault::NoMatch { name, requirement }),
    }
}

/// The view of a resolution.
pub open spec fn resolved(r: Result<Release, IndexError>) -> Result<ReleaseModel, IndexFault> {
    match r {
        Ok(release) => Ok(release@),
        Err(error) => Err(error@),
    }
}

/// Resolves a requirement to one release of a document.
pub fn resolve_in(document: &PluginReleases, name: &str, requirement: &VersionReq) -> (r: Result<
    Release,
    IndexError,
>)
    ensures
        resolved(r) == resolution(*document, name@, requirement@),
{
    match document.best_match(requirement) {
        Some(release) => Ok(release.clone()),
        None => Err(
            IndexError::NoMatch { name: name.to_owned(), requirement: requirement.to_string() },
        ),
    }
}

/// Somewhere a host can ask which releases of a plugin exist.
pub trait PluginIndex {
    /// Whether the releases of a plugin may be answered so: any answer may come where an index
    /// does not say more.
    open spec fn publishes(&self, name: &str, r: Result<PluginReleases, IndexError>) -> bool {
        true
    }

    /// Every published release of one plugin.
    fn releases(&self, name: &str) -> (r: Result<PluginReleases, IndexError>)
        ensures
            self.publishes(name, r),
    ;

    /// Whether the catalog may be answered so, besides that there is none: any answer may come
    /// where an index does not say more.
    open spec fn lists(&self, r: Result<Catalog, IndexError>) -> bool {
        true
    }

    /// Which plugins this index knows about. An index that cannot enumerate says
    /// [`IndexError::UnknownPlugin`] and stays usable for everything else.
    fn catalog(&self) -> (r: Result<Catalog, IndexError>)
        ensures
            self.lists(r) || (r matches Err(error) && error@ == no_catalog_fault()),
        default_ensures
            r matches Err(error) && error@ == no_catalog_fault(),
    {
        Err(no_catalog())
    }
}

/// What resolving comes to, given what an index answered: an error is handed on.
pub open spec fn answered_resolution(
    answer: Result<PluginReleases, IndexError>,
    name: Seq<char>,
    requirement: Seq<char>,
) -> Result<ReleaseModel, IndexFault> {
    match answer {
        Err(error) => Err(error@),
        Ok(document) => resolution(document, name, requirement),
    }
}

/// What an index says that cannot enumerate.
pub open spec fn no_catalog_fault() -> IndexFault {
    IndexFault::UnknownPlugin("<catalog>"@)
}

/// What an index says that cannot enumerate.
pub fn no_catalog() -> (r: IndexError)
    ensures
        r@ == no_catalog_fault(),
{
    IndexError::UnknownPlugin("<catalog>".to_owned())
}

/// Resolves a requirement to one release of an index. What the index answers is its own: an
/// error is handed on, and a document is resolved as [`resolve_in`] does.
pub fn resolve<X: PluginIndex>(index: &X, name: &str, requirement: &VersionReq) -> (r: Result<
    Release,
    IndexError,
>)
    ensures
        exists|answer: Result<PluginReleases, IndexError>| #[trigger]
            index.publishes(name, answer) && resolved(r) == answered_resolution(
                answer,
                name@,
                requirement@,
            ),
{
    let answer = index.releases(name);
    let ghost said = answer;
    proof {
        assert(index.publishes(name, said));
    }
    match answer {
        Err(error) => Err(error),
        Ok(document) => resolve_in(&document, name, requirement),
    }
}

/// Whether a character may stand in a plugin name.
pub open spec fn name_char(c: char) -> bool {
    ||| ('a' <= c && c <= 'z')
    ||| ('A' <= c && c <= 'Z')
    ||| ('0' <= c && c <= '9')
    ||| c == '-'
    ||| c == '_'
    ||| c == '.'
}

/// Whether a plugin name can be a path segment.
pub open spec fn usable_name(name: Seq<char>) -> bool {
    &&& 0 < name.len() <= 128
    &&& forall|i: int| 0 <= i < name.len() ==> name_char(#[trigger] name[i])
    &&& name != "."@
    &&& name != ".."@
}

/// The message for a name that is not usable.
pub open spec fn unusable_text(name: Seq<char>) -> Seq<char> {
    "`"@ + name
        + "` is not a usable plugin name: use ASCII letters, digits, `-`, `_` and `.`"@
}

/// Refuses a plugin name that would escape the document layout.
///
/// Names become path segments in every index implementation, so the check belongs here
/// rather than in each of them.
pub fn validate_name(name: &str) -> (r: Result<&str, IndexError>)
    ensures
        usable_name(name@) ==> (r matches Ok(same) && same@ == name@),
        !usable_name(name@) ==> (r matches Err(error) && error@ == IndexFault::Malformed(
            unusable_text(name@),
        )),
{
    let chars = text::chars_of(name);
    let n: usize = chars.len();
    let mut acceptable = n > 0 && n <= 128 && !text::same(name, ".") && !text::same(name, "..");
    let mut i: usize = 0;
    while i < n
        invariant
            chars@ == name@,
            n == chars.len(),
            i <= n,
            acceptable == (0 < n <= 128 && name@ != "."@ && name@ != ".."@ && forall|j: int|
                0 <= j < i ==> name_char(#[trigger] name@[j])),
        decreases n - i,
    {
        let c = chars[i];
        let fits = ('a' <= c && c <= 'z') || ('A' <= c && c <= 'Z') || ('0' <= c && c <= '9') || c
            == '-' || c == '_' || c == '.';
        proof {
            assert(fits == name_char(name@[i as int]));
        }
        acceptable = acceptable && fits;
        i = i + 1;
    }
    if acceptable {
        Ok(name)
    } else {
        let mut out = "`".to_owned();
        out.append(name);
        out.append("` is not a usable plugin name: use ASCII letters, digits, `-`, `_` and `.`");
        Err(IndexError::Malformed(out))
    }
}

/// What keeps a release document from being believed, if anything does.
pub open spec fn disbelief(
    document: PluginReleases,
    name: Seq<char>,
    freshness: Freshness,
    now: i128,
) -> Option<IndexFault> {
    match document_fault(document, name) {
        Some(fault) => Some(fault),
        None => staleness(
            freshness,
            text::opt(document.expires),
            "the release document for `"@ + name + "`"@,
            now,
        ),
    }
}

/// An index rooted at a directory.
#[derive(Debug, Clone, PartialEq, Eq)]
pub struct DirectoryIndex {
    base: String,
    strictness: Freshness,
}

impl DirectoryIndex {
    pub closed spec fn dir(self) -> Seq<char> {
        self.base@
    }

    pub closed spec fn strict(self) -> Freshness {
        self.strictness
    }

    /// Reads documents from under `base`. A directory you generated yourself has no separate
    /// party who could withhold an update from you.
    pub fn new(base: &str) -> (r: DirectoryIndex)
        ensures
            r.dir() == base@,
            r.strict() == Freshness::Lenient,
    {
        DirectoryIndex { base: base.to_owned(), strictness: Freshness::Lenient }
    }

    /// How strictly to treat document expiry.
    pub fn freshness(self, freshness: Freshness) -> (r: DirectoryIndex)
        ensures
            r.dir() == self.dir(),
            r.strict() == freshness,
    {
        DirectoryIndex { base: self.base, strictness: freshness }
    }

    /// The directory this index reads from.
    pub fn base(&self) -> (r: &str)
        ensures
            r@ == self.dir(),
    {
        self.base.as_str()
    }

    /// The file of a plugin's release document. The name reaches the filesystem, so it is
    /// checked before it is joined.
    pub fn releases_file(&self, name: &str) -> (r: Result<String, IndexError>)
        ensures
            usable_name(name@) ==> (r matches Ok(file) && file@ == path::under(
                self.dir(),
                releases_path_of(name@),
            )),
            !usable_name(name@) ==> (r matches Err(error) && error@ == IndexFault::Malformed(
                unusable_text(name@),
            )),
    {
        match validate_name(name) {
            Err(error) => Err(error),
            Ok(name) => Ok(path::join(self.base.as_str(), releases_path(name).as_str())),
        }
    }

    /// The file of the catalog.
    pub fn catalog_file(&self) -> (r: String)
        ensures
            r@ == path::under(self.dir(), "v1/index.json"@),
    {
        path::join(self.base.as_str(), "v1/index.json")
    }
}

/// Accepts a release document that was read, if it can be believed.
pub fn believe_releases(document: PluginReleases, name: &str, freshness: Freshness, now: i128) -> (r:
    Result<PluginReleases, IndexError>)
    ensures
        match disbelief(document, name@, freshness, now) {
            Some(fault) => r matches Err(error) && error@ == fault,
            None => r == Ok::<PluginReleases, IndexError>(document),
        },
{
    match document.validate(name) {
        Err(error) => {
            return Err(error);
        },
        Ok(_) => {},
    }
    let mut what = "the release document for `".to_owned();
    what.append(name);
    what.append("`");
    match freshness.check_at(&document, what.as_str(), now) {
        Err(error) => Err(error),
        Ok(_) => Ok(document),
    }
}

/// Accepts a release document that was read, if it can be believed now.
pub fn accept_releases(document: PluginReleases, name: &str, freshness: Freshness) -> (r: Result<
    PluginReleases,
    IndexError,
>)
    ensures
        exists|now: i128|
            match #[trigger] disbelief(document, name@, freshness, now) {
                Some(fault) => r matches Err(error) && error@ == fault,
                None => r == Ok::<PluginReleases, IndexError>(document),
            },
{
    let now: i128 = crate::clock::now_nanos();
    believe_releases(document, name, freshness, now)
}

/// Accepts a catalog that was read, if it can be believed now.
pub fn accept_catalog(catalog: Catalog, freshness: Freshness) -> (r: Result<Catalog, IndexError>)
    ensures
        exists|now: i128|
            match #[trigger] staleness(
                freshness,
                text::opt(catalog.expires),
                "the catalog"@,
                now,
            ) {
                Some(fault) => r matches Err(error) && error@ == fault,
                None => r == Ok::<Catalog, IndexError>(catalog),
            },
{
    let now: i128 = crate::clock::now_nanos();
    match freshness.check_at(&catalog, "the catalog", now) {
        Err(error) => Err(error),
        Ok(_) => Ok(catalog),
    }
}

/// What a file that could not be read says of what was asked for: one that is not there names
/// nothing, and any other failure is one of the way to it.
pub fn read_failure(what: &str, file: &str, missing: bool, message: &str) -> (r: IndexError)
    ensures
        r@ == if missing {
            IndexFault::UnknownPlugin(what@)
        } else {
            IndexFault::Transport(file@ + ": "@ + message@)
        },
{
    if missing {
        return IndexError::UnknownPlugin(what.to_owned());
    }
    let mut out = file.to_owned();
    out.append(": ");
    out.append(message);
    IndexError::Transport(out)
}

/// A usable name is one path segment: it holds no separator and names neither the directory
/// itself nor the one above it.
pub proof fn usable_name_is_one_segment(name: Seq<char>)
    requires
        usable_name(name),
    ensures
        text::pieces(name, '/') == seq![name],
        name != "."@,
        name != ".."@,
        name.len() > 0,
{
    text::find_bounds(name, '/', 0);
    let cut = text::find(name, '/', 0);
    if cut < name.len() {
        assert(name_char(name[cut]));
    }
    assert(name.subrange(0, name.len() as int) =~= name);
}

/// A document that is believed under the strict setting carries an expiry that has not
/// passed, whatever else it claims.
pub proof fn strict_documents_are_fresh(
    expires: Option<Seq<char>>,
    what: Seq<char>,
    now: i128,
)
    requires
        staleness(Freshness::Required, expires, what, now) is None,
    ensures
        expires is Some,
        parsed_time(expires->0) matches Ok(deadline) && now <= deadline,
{
}

/// A document that is refused as stale stays refused: time does not make it fresh again.
pub proof fn stale_stays_stale(
    freshness: Freshness,
    expires: Option<Seq<char>>,
    what: Seq<char>,
    now: i128,
    later: i128,
)
    requires
        staleness(freshness, expires, what, now) is Some,
        now <= later,
    ensures
        staleness(freshness, expires, what, later) == staleness(freshness, expires, what, now),
{
}

/// A document that passes names each version once, each with a digest of the right form.
pub proof fn valid_document_is_consistent(document: PluginReleases, name: Seq<char>)
    requires
        document_fault(document, name) is None,
    ensures
        document.name@ == name,
        document.schema <= INDEX_SCHEMA,
        forall|i: int, j: int|
            0 <= i < j < document.releases@.len() ==> (#[trigger] document.releases@[i]).version@
                != (#[trigger] document.releases@[j]).version@,
        forall|i: int|
            0 <= i < document.releases@.len() ==> is_sha256(
                bare_hex((#[trigger] document.releases@[i]).digest@),
            ),
{
    let all = document.releases@;
    assert forall|i: int, j: int| 0 <= i < j < all.len() implies (#[trigger] all[i]).version@ != (
    #[trigger] all[j]).version@ by {
        sound_from(document.name@, all, 0, j);
        if all[i].version@ == all[j].version@ {
            assert(listed(all, all[j].version@, j));
        }
    }
    assert forall|i: int| 0 <= i < all.len() implies is_sha256(
        bare_hex((#[trigger] all[i]).digest@),
    ) by {
        sound_from(document.name@, all, 0, i);
    }
}

proof fn sound_from(plugin: Seq<char>, releases: Seq<Release>, from: int, at: int)
    requires
        0 <= from <= at < releases.len(),
        release_fault_from(plugin, releases, from) is None,
    ensures
        !listed(releases, releases[at].version@, at),
        is_sha256(bare_hex(releases[at].digest@)),
    decreases at - from,
{
    if from < at {
        sound_from(plugin, releases, from + 1, at);
    }
}

/// Whether a version is among those that may be chosen.
pub open spec fn offers(releases: Seq<Release>, requirement: Seq<char>, version: Seq<char>) -> bool {
    exists|i: int|
        0 <= i < releases.len() && (#[trigger] releases[i]).version@ == version && eligible(
            releases[i],
            requirement,
        )
}

/// The order in which releases are listed has no say in which version is chosen: two lists that
/// offer the same versions have the same newest one.
pub proof fn listing_order_does_not_choose(
    a: Seq<Release>,
    b: Seq<Release>,
    requirement: Seq<char>,
    x: Release,
    y: Release,
)
    requires
        newest_of(a, requirement, x),
        newest_of(b, requirement, y),
        forall|version: Seq<char>| #[trigger]
            offers(a, requirement, version) <==> offers(b, requirement, version),
    ensures
        x.version@ == y.version@,
{
    let i = choose|i: int| 0 <= i < a.len() && a[i] == x;
    assert(a[i].version@ == x.version@);
    assert(offers(a, requirement, x.version@));
    assert(offers(b, requirement, x.version@));
    let p = choose|p: int|
        0 <= p < b.len() && (#[trigger] b[p]).version@ == x.version@ && eligible(b[p], requirement);
    assert(not_after(x.version@, y.version@));
    let j = choose|j: int| 0 <= j < b.len() && b[j] == y;
    assert(b[j].version@ == y.version@);
    assert(offers(b, requirement, y.version@));
    assert(offers(a, requirement, y.version@));
    let q = choose|q: int|
        0 <= q < a.len() && (#[trigger] a[q]).version@ == y.version@ && eligible(a[q], requirement);
    assert(not_after(y.version@, x.version@));
}

} // verus!
