//! Pinned plugin builds: the trust anchor for distribution.
//!
//! A [`Lockfile`] states, for each plugin the host expects, the exact root digest that may
//! load and, when the host cares, who must have signed it and which version it must be. A
//! transport can then serve whatever it likes: anything other than the pinned bytes fails
//! to load.

use crate::manifest::Manifest;
use crate::names::NameMap;
use crate::signature;
use crate::signature::{DirectoryDigest, Signer, SignerModel};
use crate::text;
use crate::version;
use crate::version::Version;
use vstd::prelude::*;
use vstd::string::*;

verus! {

/// Name of the lockfile a host conventionally keeps beside its plugin root.
pub const LOCK_FILE: &'static str = "stanchion.lock";

/// Lockfile format version this library writes and accepts.
pub const LOCK_VERSION: u32 = 1;

/// Why a plugin did not match the lockfile.
#[allow(inconsistent_fields)]
#[derive(Debug, PartialEq, Eq)]
pub enum LockError {
    /// The lockfile has no entry for this plugin.
    Unlocked(String),
    /// The plugin's bytes are not the pinned bytes.
    DigestMismatch {
        /// Plugin name.
        name: String,
        /// The digest the lockfile pins.
        expected: String,
        /// The digest the directory actually produced.
        found: String,
    },
    /// The plugin is signed, but not by the pinned identity.
    SignerMismatch {
        /// Plugin name.
        name: String,
        /// The identity the lockfile pins.
        expected: String,
        /// Who actually signed, or `unsigned`.
        found: String,
    },
    /// The manifest's version is not the pinned version.
    VersionMismatch {
        /// Plugin name.
        name: String,
        /// The version the lockfile pins.
        expected: Version,
        /// The version the manifest declares.
        found: Version,
    },
    /// The lockfile itself could not be read or understood.
    Malformed(String),
}

/// What a lock error is, apart from how it is stored.
pub enum LockFault {
    Unlocked(Seq<char>),
    DigestMismatch { name: Seq<char>, expected: Seq<char>, found: Seq<char> },
    SignerMismatch { name: Seq<char>, expected: Seq<char>, found: Seq<char> },
    VersionMismatch { name: Seq<char>, expected: Seq<char>, found: Seq<char> },
    Malformed(Seq<char>),
}

impl View for LockError {
    type V = LockFault;

    open spec fn view(&self) -> LockFault {
        match *self {
            LockError::Unlocked(name) => LockFault::Unlocked(name@),
            LockError::DigestMismatch { name, expected, found } => LockFault::DigestMismatch {
                name: name@,
                expected: expected@,
                found: found@,
            },
            LockError::SignerMismatch { name, expected, found } => LockFault::SignerMismatch {
                name: name@,
                expected: expected@,
                found: found@,
            },
            LockError::VersionMismatch { name, expected, found } => LockFault::VersionMismatch {
                name: name@,
                expected: expected@,
                found: found@,
            },
            LockError::Malformed(message) => LockFault::Malformed(message@),
        }
    }
}

impl LockFault {
    /// What a lock error says.
    pub open spec fn message(self) -> Seq<char> {
        match self {
            LockFault::Unlocked(name) => "`"@ + name + "` is not in the lockfile"@,
            LockFault::DigestMismatch { name, expected, found } => "`"@ + name
                + "` is pinned to "@ + expected + " but these bytes are "@ + found,
            LockFault::SignerMismatch { name, expected, found } => "`"@ + name
                + "` is pinned to signer `"@ + expected + "` but was signed by "@ + found,
            LockFault::VersionMismatch { name, expected, found } => "`"@ + name
                + "` is pinned at "@ + expected + " but declares "@ + found,
            LockFault::Malformed(message) => message,
        }
    }
}

impl LockError {
    /// The error written out.
    pub fn to_string(&self) -> (r: String)
        ensures
            r@ == self@.message(),
    {
        match self {
            LockError::Unlocked(name) => {
                let mut out = "`".to_owned();
                out.append(name.as_str());
                out.append("` is not in the lockfile");
                out
            },
            LockError::DigestMismatch { name, expected, found } => {
                let mut out = "`".to_owned();
                out.append(name.as_str());
                out.append("` is pinned to ");
                out.append(expected.as_str());
                out.append(" but these bytes are ");
                out.append(found.as_str());
                out
            },
            LockError::SignerMismatch { name, expected, found } => {
                let mut out = "`".to_owned();
                out.append(name.as_str());
                out.append("` is pinned to signer `");
                out.append(expected.as_str());
                out.append("` but was signed by ");
                out.append(found.as_str());
                out
            },
            LockError::VersionMismatch { name, expected, found } => {
                let mut out = "`".to_owned();
                out.append(name.as_str());
                out.append("` is pinned at ");
                out.append(expected.as_str());
                out.append(" but declares ");
                out.append(found.as_str());
                out
            },
            LockError::Malformed(message) => message.clone(),
        }
    }
}

/// A digest in the form a lockfile keeps: small letters under a `sha256:` prefix. A bare
/// digest is accepted, and so is white space around it.
pub open spec fn normalized(digest: Seq<char>) -> Seq<char> {
    let bare = text::trimmed(digest);
    match text::after(bare, "sha256:"@) {
        Some(hex) => "sha256:"@ + text::lower(hex),
        None => "sha256:"@ + text::lower(bare),
    }
}

/// The digits of a digest.
pub open spec fn bare_hex(digest: Seq<char>) -> Seq<char> {
    match text::after(digest, "sha256:"@) {
        Some(hex) => hex,
        None => digest,
    }
}

/// Whether a text is a bare SHA-256 digest: sixty-four hexadecimal digits.
pub open spec fn is_sha256(hex: Seq<char>) -> bool {
    hex.len() == 64 && text::all_hex(hex)
}

/// Accepts a bare hex digest as well as the `sha256:` form, and lowercases both.
pub fn normalize_digest(digest: &str) -> (r: String)
    ensures
        r@ == normalized(digest@),
{
    let trimmed = text::trim(digest);
    let mut out = "sha256:".to_owned();
    match text::strip_prefix(trimmed.as_str(), "sha256:") {
        Some(hex) => {
            out.append(text::to_lower(hex.as_str()).as_str());
        },
        None => {
            out.append(text::to_lower(trimmed.as_str()).as_str());
        },
    }
    out
}

/// The digits of a digest.
pub fn hex_of(digest: &str) -> (r: String)
    ensures
        r@ == bare_hex(digest@),
{
    match text::strip_prefix(digest, "sha256:") {
        Some(hex) => hex,
        None => digest.to_owned(),
    }
}

/// Whether a text is a bare SHA-256 digest.
pub fn is_sha256_hex(hex: &str) -> (r: bool)
    ensures
        r == is_sha256(hex@),
{
    text::chars_of(hex).len() == 64 && text::is_all_hex(hex)
}

/// One pinned plugin build.
///
/// `digest` is the only field that has to be there. The rest narrow what is accepted, and
/// `source` is a hint for the fetcher that carries no authority at all.
#[derive(Debug, PartialEq, Eq)]
pub struct LockedPlugin {
    /// Root digest of the plugin directory, as `sha256:<hex>`.
    pub digest: String,
    /// Version the manifest must declare, when the host wants that pinned too.
    pub version: Option<Version>,
    /// Identity that must have signed this build.
    pub signer: Option<String>,
    /// Issuer that must have vouched for the signer, where the scheme records one.
    pub issuer: Option<String>,
    /// Where this build was fetched from, for tooling to fetch it again.
    pub source: Option<String>,
}

/// What a pin is, apart from how it is stored.
pub struct Pin {
    pub digest: Seq<char>,
    pub version: Option<Seq<char>>,
    pub signer: Option<Seq<char>>,
    pub issuer: Option<Seq<char>>,
    pub source: Option<Seq<char>>,
}

impl View for LockedPlugin {
    type V = Pin;

    open spec fn view(&self) -> Pin {
        Pin {
            digest: self.digest@,
            version: version::opt_version(self.version),
            signer: text::opt(self.signer),
            issuer: text::opt(self.issuer),
            source: text::opt(self.source),
        }
    }
}

impl Clone for LockedPlugin {
    fn clone(&self) -> (r: Self)
        ensures
            r@ == self@,
    {
        let version = match &self.version {
            Some(version) => Some(version.clone()),
            None => None,
        };
        LockedPlugin {
            digest: self.digest.clone(),
            version,
            signer: signature::copy_opt(&self.signer),
            issuer: signature::copy_opt(&self.issuer),
            source: signature::copy_opt(&self.source),
        }
    }
}

impl LockedPlugin {
    /// Pins a build by digest alone.
    pub fn new(digest: &str) -> (r: LockedPlugin)
        ensures
            r@ == (Pin {
                digest: normalized(digest@),
                version: None,
                signer: None,
                issuer: None,
                source: None,
            }),
    {
        LockedPlugin {
            digest: normalize_digest(digest),
            version: None,
            signer: None,
            issuer: None,
            source: None,
        }
    }

    /// Pins the build a directory currently holds.
    pub fn from_digest(digest: &DirectoryDigest) -> (r: LockedPlugin)
        ensures
            r@ == (Pin {
                digest: normalized("sha256:"@ + digest.fingerprint()),
                version: None,
                signer: None,
                issuer: None,
                source: None,
            }),
    {
        let mut whole = "sha256:".to_owned();
        whole.append(digest.hex().as_str());
        LockedPlugin::new(whole.as_str())
    }

    /// Also requires this signer identity.
    pub fn signed_by(self, identity: &str) -> (r: LockedPlugin)
        ensures
            r@ == (Pin { signer: Some(identity@), ..self@ }),
    {
        LockedPlugin {
            digest: self.digest,
            version: self.version,
            signer: Some(identity.to_owned()),
            issuer: self.issuer,
            source: self.source,
        }
    }

    /// Also requires this issuer.
    pub fn issued_by(self, issuer: &str) -> (r: LockedPlugin)
        ensures
            r@ == (Pin { issuer: Some(issuer@), ..self@ }),
    {
        LockedPlugin {
            digest: self.digest,
            version: self.version,
            signer: self.signer,
            issuer: Some(issuer.to_owned()),
            source: self.source,
        }
    }

    /// Also requires this manifest version.
    pub fn at_version(self, version: Version) -> (r: LockedPlugin)
        ensures
            r@ == (Pin { version: Some(version@), ..self@ }),
    {
        LockedPlugin {
            digest: self.digest,
            version: Some(version),
            signer: self.signer,
            issuer: self.issuer,
            source: self.source,
        }
    }

    /// Records where the build came from.
    pub fn fetched_from(self, source: &str) -> (r: LockedPlugin)
        ensures
            r@ == (Pin { source: Some(source@), ..self@ }),
    {
        LockedPlugin {
            digest: self.digest,
            version: self.version,
            signer: self.signer,
            issuer: self.issuer,
            source: Some(source.to_owned()),
        }
    }

    /// The pinned digest as bare lowercase hex, without the `sha256:` prefix.
    pub fn hex(&self) -> (r: String)
        ensures
            r@ == text::lower(bare_hex(self.digest@)),
    {
        text::to_lower(hex_of(self.digest.as_str()).as_str())
    }
}

/// Every plugin build a host accepts, by name.
#[derive(Debug, PartialEq, Eq)]
pub struct Lockfile {
    /// Format version, so an older host refuses a newer file instead of misreading it.
    pub version: u32,
    /// Pinned builds, by plugin name.
    pub plugins: NameMap<LockedPlugin>,
}

/// The format version of a lockfile that names none.
pub fn default_lock_version() -> (r: u32)
    ensures
        r == LOCK_VERSION,
{
    LOCK_VERSION
}

impl Default for Lockfile {
    fn default() -> (r: Lockfile)
        ensures
            r.wf(),
            r.version == LOCK_VERSION,
            r.plugins@.len() == 0,
    {
        Lockfile { version: LOCK_VERSION, plugins: NameMap::new() }
    }
}

/// The view of an optional pin.
pub open spec fn opt_pin(entry: Option<LockedPlugin>) -> Option<Pin> {
    match entry {
        Some(entry) => Some(entry@),
        None => None,
    }
}

/// What keeps a plugin from matching its pin, if anything does. Bytes are checked first,
/// then the signer, its issuer and the version.
pub open spec fn pin_fault(
    name: Seq<char>,
    pin: Option<Pin>,
    published: Seq<char>,
    fingerprint: Seq<char>,
    signer: SignerModel,
) -> Option<LockFault> {
    match pin {
        None => Some(LockFault::Unlocked(name)),
        Some(pin) => if text::lower(bare_hex(pin.digest)) != text::lower(fingerprint) {
            Some(
                LockFault::DigestMismatch {
                    name,
                    expected: pin.digest,
                    found: "sha256:"@ + fingerprint,
                },
            )
        } else if pin.signer is Some && signature::identity_of(signer) != pin.signer {
            Some(
                LockFault::SignerMismatch {
                    name,
                    expected: pin.signer->0,
                    found: signature::signer_text(signer),
                },
            )
        } else if pin.issuer is Some && signature::issuer_of(signer) != pin.issuer {
            Some(
                LockFault::SignerMismatch {
                    name,
                    expected: pin.issuer->0,
                    found: match signature::issuer_of(signer) {
                        Some(issuer) => issuer,
                        None => "no issuer"@,
                    },
                },
            )
        } else if pin.version is Some && pin.version->0 != published {
            Some(LockFault::VersionMismatch { name, expected: pin.version->0, found: published })
        } else {
            None
        },
    }
}

/// The view of a refusal by a lockfile.
pub open spec fn lock_fault(r: Result<(), LockError>) -> Option<LockFault> {
    match r {
        Ok(_) => None,
        Err(error) => Some(error@),
    }
}

/// The message for an entry whose digest is none.
pub open spec fn bad_digest_text(name: Seq<char>, digest: Seq<char>) -> Seq<char> {
    "`"@ + name + "`: `"@ + digest + "` is not a sha256 digest"@
}

/// The message for a format that is newer than this library.
pub open spec fn newer_format_text(format: int) -> Seq<char> {
    "lockfile format version "@ + text::decimal(format as nat)
        + " is newer than this build understands ("@ + text::decimal(LOCK_VERSION as nat) + ")"@
}

/// The first entry at or after `from` whose digest is none.
pub open spec fn first_bad_digest(entries: Seq<(String, LockedPlugin)>, from: int) -> Option<int>
    decreases entries.len() - from,
{
    if from < 0 || from >= entries.len() {
        None
    } else if !is_sha256(bare_hex(normalized(entries[from].1.digest@))) {
        Some(from)
    } else {
        first_bad_digest(entries, from + 1)
    }
}

impl Lockfile {
    pub open spec fn wf(self) -> bool {
        self.plugins.wf()
    }

    /// The pin of a plugin.
    pub open spec fn pinned(self, name: Seq<char>) -> Option<Pin> {
        opt_pin(self.plugins.at(name))
    }

    /// An empty lockfile, which pins nothing.
    pub fn new() -> (r: Lockfile)
        ensures
            r.wf(),
            r.version == LOCK_VERSION,
            r.plugins@.len() == 0,
    {
        Lockfile { version: LOCK_VERSION, plugins: NameMap::new() }
    }

    /// A lockfile from what was read: refuses a format that is newer than this library, and
    /// an entry whose digest is none, and puts every digest into the form it is kept in.
    pub fn parse(lock: Lockfile) -> (r: Result<Lockfile, LockError>)
        requires
            lock.wf(),
        ensures
            lock.version > LOCK_VERSION ==> (r matches Err(error) && error@
                == LockFault::Malformed(newer_format_text(lock.version as int))),
            lock.version <= LOCK_VERSION ==> match first_bad_digest(lock.plugins@, 0) {
                Some(at) => r matches Err(error) && error@ == LockFault::Malformed(
                    bad_digest_text(
                        lock.plugins@[at].0@,
                        normalized(lock.plugins@[at].1.digest@),
                    ),
                ),
                None => {
                    &&& r matches Ok(done)
                    &&& done.wf()
                    &&& done.version == lock.version
                    &&& done.plugins.keys() == lock.plugins.keys()
                    &&& forall|i: int|
                        0 <= i < done.plugins@.len() ==> (#[trigger] done.plugins@[i]).1@ == (Pin {
                            digest: normalized(lock.plugins@[i].1.digest@),
                            ..lock.plugins@[i].1@
                        })
                },
            },
    {
        if lock.version > LOCK_VERSION {
            let mut out = "lockfile format version ".to_owned();
            out.append(text::number(lock.version as u64).as_str());
            out.append(" is newer than this build understands (");
            out.append(text::number(LOCK_VERSION as u64).as_str());
            out.append(")");
            return Err(LockError::Malformed(out));
        }
        let n: usize = lock.plugins.entries.len();
        let mut entries: Vec<(String, LockedPlugin)> = Vec::new();
        let mut i: usize = 0;
        while i < n
            invariant
                n == lock.plugins.entries.len(),
                lock.version <= LOCK_VERSION,
                i <= n,
                entries@.len() == i,
                first_bad_digest(lock.plugins@, 0) == first_bad_digest(lock.plugins@, i as int),
                forall|j: int|
                    0 <= j < i ==> (#[trigger] entries@[j]).0@ == lock.plugins@[j].0@
                        && entries@[j].1@ == (Pin {
                        digest: normalized(lock.plugins@[j].1.digest@),
                        ..lock.plugins@[j].1@
                    }),
            decreases n - i,
        {
            let entry = &lock.plugins.entries[i];
            let mut pin = entry.1.clone();
            let digest = normalize_digest(entry.1.digest.as_str());
            let hex = hex_of(digest.as_str());
            if !is_sha256_hex(hex.as_str()) {
                let mut out = "`".to_owned();
                out.append(entry.0.as_str());
                out.append("`: `");
                out.append(digest.as_str());
                out.append("` is not a sha256 digest");
                return Err(LockError::Malformed(out));
            }
            pin.digest = digest;
            entries.push((entry.0.clone(), pin));
            i = i + 1;
        }
        let plugins = NameMap { entries };
        proof {
            assert(plugins.keys() =~= lock.plugins.keys());
        }
        Ok(Lockfile { version: lock.version, plugins })
    }

    /// Pins one plugin, replacing any existing entry.
    pub fn pin(&mut self, name: &str, entry: LockedPlugin) -> (r: Option<LockedPlugin>)
        requires
            old(self).wf(),
        ensures
            final(self).wf(),
            final(self).version == old(self).version,
            opt_pin(r) == old(self).pinned(name@),
            final(self).pinned(name@) == Some(entry@),
            forall|other: Seq<char>|
                other != name@ ==> #[trigger] final(self).pinned(other) == old(self).pinned(other),
    {
        let previous = match self.plugins.get(name) {
            Some(entry) => Some(entry.clone()),
            None => None,
        };
        self.plugins.insert(name.to_owned(), entry);
        previous
    }

    /// The entry for one plugin, if it is pinned.
    pub fn get(&self, name: &str) -> (r: Option<&LockedPlugin>)
        requires
            self.wf(),
        ensures
            match r {
                Some(entry) => self.pinned(name@) == Some(entry@),
                None => self.pinned(name@) is None,
            },
    {
        self.plugins.get(name)
    }

    /// Whether this lockfile pins nothing.
    pub fn is_empty(&self) -> (r: bool)
        ensures
            r == (self.plugins@.len() == 0),
    {
        self.plugins.is_empty()
    }

    /// Checks a plugin's bytes and signer against its pin.
    ///
    /// A plugin with no entry is [`LockError::Unlocked`]: once a host keeps a lockfile, an
    /// unpinned plugin appearing in the root is the thing worth noticing.
    pub fn check(&self, manifest: &Manifest, digest: &DirectoryDigest, signer: &Signer) -> (r:
        Result<(), LockError>)
        requires
            self.wf(),
        ensures
            lock_fault(r) == pin_fault(
                manifest.name@,
                self.pinned(manifest.name@),
                manifest.published(),
                digest.fingerprint(),
                signer@,
            ),
    {
        let entry = match self.plugins.get(manifest.name.as_str()) {
            Some(entry) => entry,
            None => {
                return Err(LockError::Unlocked(manifest.name.clone()));
            },
        };
        let found = digest.hex();
        proof {
            text::lower_idempotent(bare_hex(entry.digest@));
        }
        if !text::same_ignoring_case(entry.hex().as_str(), found.as_str()) {
            let mut whole = "sha256:".to_owned();
            whole.append(found.as_str());
            return Err(
                LockError::DigestMismatch {
                    name: manifest.name.clone(),
                    expected: entry.digest.clone(),
                    found: whole,
                },
            );
        }
        match &entry.signer {
            Some(expected) => {
                let matched = match signer.identity() {
                    Some(identity) => text::same(identity, expected.as_str()),
                    None => false,
                };
                if !matched {
                    return Err(
                        LockError::SignerMismatch {
                            name: manifest.name.clone(),
                            expected: expected.clone(),
                            found: signer.to_string(),
                        },
                    );
                }
            },
            None => {},
        }
        match &entry.issuer {
            Some(expected) => match signer.issuer() {
                Some(issuer) => {
                    if !text::same(issuer, expected.as_str()) {
                        return Err(
                            LockError::SignerMismatch {
                                name: manifest.name.clone(),
                                expected: expected.clone(),
                                found: issuer.to_owned(),
                            },
                        );
                    }
                },
                None => {
                    return Err(
                        LockError::SignerMismatch {
                            name: manifest.name.clone(),
                            expected: expected.clone(),
                            found: "no issuer".to_owned(),
                        },
                    );
                },
            },
            None => {},
        }
        match &entry.version {
            Some(expected) => {
                let found = manifest.effective_version();
                if !expected.same(&found) {
                    return Err(
                        LockError::VersionMismatch {
                            name: manifest.name.clone(),
                            expected: expected.clone(),
                            found,
                        },
                    );
                }
            },
            None => {},
        }
        Ok(())
    }
}

/// White space is no part of a digest in the form it is kept in, so the form is stable: putting
/// a text into it twice is putting it into it once.
pub proof fn normalized_is_stable(digest: Seq<char>)
    ensures
        normalized(normalized(digest)) == normalized(digest),
{
    let once = normalized(digest);
    let bare = text::trimmed(digest);
    let kept = match text::after(bare, "sha256:"@) {
        Some(rest) => rest,
        None => bare,
    };
    let hex = text::lower(kept);
    reveal_strlit("sha256:");
    prefixed(hex);
    text::lower_idempotent(kept);
    assert(once == "sha256:"@ + hex);
    assert(once[0] == 's');
    assert(text::trim_start(once) == once);
    trim_end_holds(text::trim_start(digest));
    assert(!text::is_space(once[once.len() - 1])) by {
        if hex.len() > 0 {
            let last = kept[kept.len() - 1];
            assert(once[once.len() - 1] == text::lower_char(last));
            assert(last == bare[bare.len() - 1]);
            lower_is_no_space(last);
        } else {
            assert(once =~= "sha256:"@);
        }
    }
    assert(text::trim_end(once) == once);
}

proof fn trim_end_holds(s: Seq<char>)
    ensures
        text::trim_end(s).len() > 0 ==> !text::is_space(
            text::trim_end(s)[text::trim_end(s).len() - 1],
        ),
    decreases s.len(),
{
    if s.len() > 0 && text::is_space(s[s.len() - 1]) {
        trim_end_holds(s.subrange(0, s.len() - 1));
    }
}

proof fn lower_is_no_space(c: char)
    requires
        !text::is_space(c),
    ensures
        !text::is_space(text::lower_char(c)),
{
    text::lower_char_small(c);
}

/// A text under the prefix of a digest is what follows the prefix.
proof fn prefixed(hex: Seq<char>)
    ensures
        text::after("sha256:"@ + hex, "sha256:"@) == Some(hex),
        bare_hex("sha256:"@ + hex) == hex,
{
    let whole = "sha256:"@ + hex;
    assert(whole.subrange(0, "sha256:"@.len() as int) =~= "sha256:"@);
    assert(whole.subrange("sha256:"@.len() as int, whole.len() as int) =~= hex);
}

/// A pin made from a directory's digest accepts that directory, whoever signed it and
/// whatever its version.
pub proof fn own_digest_is_accepted(
    name: Seq<char>,
    files: Seq<signature::Covered>,
    published: Seq<char>,
    signer: SignerModel,
)
    ensures
        ({
            let fingerprint = text::hex(signature::sha256_of(signature::layout(files)));
            pin_fault(
                name,
                Some(
                    Pin {
                        digest: normalized("sha256:"@ + fingerprint),
                        version: None,
                        signer: None,
                        issuer: None,
                        source: None,
                    },
                ),
                published,
                fingerprint,
                signer,
            ) is None
        }),
{
    let fingerprint = text::hex(signature::sha256_of(signature::layout(files)));
    fingerprint_form(signature::sha256_of(signature::layout(files)));
    text::lower_idempotent(fingerprint);
}

/// The digest of a fingerprint is the fingerprint under its prefix.
pub proof fn fingerprint_form(root: Seq<u8>)
    ensures
        normalized("sha256:"@ + text::hex(root)) == "sha256:"@ + text::hex(root),
        bare_hex(normalized("sha256:"@ + text::hex(root))) == text::hex(root),
{
    let hex = text::hex(root);
    let whole = "sha256:"@ + hex;
    text::hex_digits(root);
    prefixed(hex);
    reveal_strlit("sha256:");
    assert(whole[0] == 's');
    assert(text::trim_start(whole) == whole);
    if hex.len() > 0 {
        assert(whole[whole.len() - 1] == hex[hex.len() - 1]);
        assert(text::is_hex_digit(hex[hex.len() - 1]));
    } else {
        assert(whole[whole.len() - 1] == ':');
    }
    assert(text::trim_end(whole) == whole);
}

/// What a pin accepts has the pinned bytes, and the pinned signer, issuer and version where
/// the pin names them: no other build loads under its name.
pub proof fn accepted_is_pinned(
    name: Seq<char>,
    pin: Option<Pin>,
    published: Seq<char>,
    fingerprint: Seq<char>,
    signer: SignerModel,
)
    requires
        pin_fault(name, pin, published, fingerprint, signer) is None,
    ensures
        pin is Some,
        text::lower(bare_hex(pin->0.digest)) == text::lower(fingerprint),
        pin->0.signer is Some ==> signature::identity_of(signer) == pin->0.signer,
        pin->0.issuer is Some ==> signature::issuer_of(signer) == pin->0.issuer,
        pin->0.version is Some ==> pin->0.version == Some(published),
{
}

/// Where a build was fetched from has no say in whether it is accepted.
pub proof fn source_has_no_authority(
    name: Seq<char>,
    pin: Pin,
    source: Option<Seq<char>>,
    published: Seq<char>,
    fingerprint: Seq<char>,
    signer: SignerModel,
)
    ensures
        pin_fault(name, Some(pin), published, fingerprint, signer) == pin_fault(
            name,
            Some(Pin { source, ..pin }),
            published,
            fingerprint,
            signer,
        ),
{
}

} // verus!
