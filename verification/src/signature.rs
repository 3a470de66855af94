//! Plugin signatures: binding an identity to the exact bytes that will run.
//!
//! Every file of a plugin is signed, not just its manifest. [`DirectoryDigest`] hashes each
//! file and folds the hashes, in the order of the paths, into one root digest, which is what
//! a [`PluginVerifier`] checks. The hashes of the files are kept, so that a loader can
//! confirm as it reads a file that those are the bytes that were verified.
//!
//! A signature says whom to hold responsible, not whether to worry: a withdrawn plugin's
//! signature stays valid. [`Revocations`] are the other half of that.

use crate::names;
use crate::names::NameMap;
use crate::text;
use vstd::prelude::*;
use vstd::string::*;

verus! {

/// Detached signature file.
pub const SIGNATURE_FILE: &'static str = "plugin.sig";

/// Signature bundle file.
pub const BUNDLE_FILE: &'static str = "plugin.sigstore.json";

/// Whether a file is never covered by the digest, because it carries the signature itself.
pub open spec fn excluded(path: Seq<char>) -> bool {
    path == "plugin.sig"@ || path == "plugin.sigstore.json"@
}

pub fn is_excluded(path: &str) -> (r: bool)
    ensures
        r == excluded(path@),
{
    text::same(path, "plugin.sig") || text::same(path, "plugin.sigstore.json")
}

/// The SHA-256 of bytes, as `sha2::Sha256::digest` computes it.
pub uninterp spec fn sha256_of(bytes: Seq<u8>) -> Seq<u8>;

/// Calls `sha2::Sha256::digest`. Claimed: the thirty-two bytes are a function of the input.
#[verifier::external_body]
pub(crate) fn sha256(bytes: &[u8]) -> (r: [u8; 32])
    ensures
        r@ == sha256_of(bytes@),
{
    <sha2::Sha256 as sha2::Digest>::digest(bytes).into()
}

/// Who signed a plugin, as far as the host could establish.
#[derive(Debug, PartialEq, Eq)]
pub enum Signer {
    /// No signature was present, and the registry was configured to allow that.
    Unsigned,
    /// A signature verified against the host's trust root.
    Verified {
        /// Subject identity: a key name, an email, or a workload identity.
        identity: String,
        /// Issuer that vouched for the identity, where the scheme has one.
        issuer: Option<String>,
    },
}

/// The view of an optional text.
pub open spec fn opt_str(s: Option<&str>) -> Option<Seq<char>> {
    match s {
        Some(s) => Some(s@),
        None => None,
    }
}

/// A copy of an optional string.
pub fn copy_opt(s: &Option<String>) -> (r: Option<String>)
    ensures
        text::opt(r) == text::opt(*s),
{
    match s {
        Some(s) => Some(s.clone()),
        None => None,
    }
}

/// What a signer is, apart from how it is stored: an identity and its issuer, or nothing.
pub type SignerModel = Option<(Seq<char>, Option<Seq<char>>)>;

impl Clone for Signer {
    fn clone(&self) -> (r: Self)
        ensures
            r@ == self@,
    {
        match self {
            Signer::Unsigned => Signer::Unsigned,
            Signer::Verified { identity, issuer } => Signer::Verified {
                identity: identity.clone(),
                issuer: copy_opt(issuer),
            },
        }
    }
}

impl View for Signer {
    type V = SignerModel;

    open spec fn view(&self) -> SignerModel {
        match *self {
            Signer::Unsigned => None,
            Signer::Verified { identity, issuer } => Some((identity@, text::opt(issuer))),
        }
    }
}

/// The identity of a signer.
pub open spec fn identity_of(signer: SignerModel) -> Option<Seq<char>> {
    match signer {
        Some((identity, _)) => Some(identity),
        None => None,
    }
}

/// The issuer of a signer.
pub open spec fn issuer_of(signer: SignerModel) -> Option<Seq<char>> {
    match signer {
        Some((_, issuer)) => issuer,
        None => None,
    }
}

/// How a signer is written.
pub open spec fn signer_text(signer: SignerModel) -> Seq<char> {
    match signer {
        None => "unsigned"@,
        Some((identity, Some(issuer))) => identity + " (via "@ + issuer + ")"@,
        Some((identity, None)) => identity,
    }
}

impl Signer {
    /// Convenience constructor for a verified signer.
    pub fn verified(identity: &str, issuer: Option<String>) -> (r: Signer)
        ensures
            r@ == Some((identity@, text::opt(issuer))),
    {
        Signer::Verified { identity: identity.to_owned(), issuer }
    }

    /// The verified identity, or `None` when unsigned.
    pub fn identity(&self) -> (r: Option<&str>)
        ensures
            opt_str(r) == identity_of(self@),
    {
        match self {
            Signer::Unsigned => None,
            Signer::Verified { identity, issuer: _ } => Some(identity.as_str()),
        }
    }

    /// The issuer, where the scheme records one.
    pub fn issuer(&self) -> (r: Option<&str>)
        ensures
            opt_str(r) == issuer_of(self@),
    {
        match self {
            Signer::Unsigned => None,
            Signer::Verified { identity: _, issuer } => match issuer {
                Some(issuer) => Some(issuer.as_str()),
                None => None,
            },
        }
    }

    /// Whether a signature was verified at all.
    pub fn is_verified(&self) -> (r: bool)
        ensures
            r == (self@ is Some),
    {
        match self {
            Signer::Unsigned => false,
            Signer::Verified { identity: _, issuer: _ } => true,
        }
    }

    /// The signer written out.
    pub fn to_string(&self) -> (r: String)
        ensures
            r@ == signer_text(self@),
    {
        match self {
            Signer::Unsigned => "unsigned".to_owned(),
            Signer::Verified { identity, issuer } => {
                let mut out = identity.clone();
                match issuer {
                    Some(issuer) => {
                        out.append(" (via ");
                        out.append(issuer.as_str());
                        out.append(")");
                    },
                    None => {},
                }
                out
            },
        }
    }
}

/// Why verification did not produce a trusted signer.
#[derive(Debug, Clone, PartialEq, Eq)]
pub enum VerifyError {
    /// No signature artifact was found in the plugin directory.
    Missing,
    /// A signature was present but did not check out against the digest.
    Invalid(String),
    /// The signature is cryptographically sound but the signer is not trusted.
    Untrusted(String),
    /// The signature artifact could not be read.
    Io(String),
}

impl VerifyError {
    /// What the error says.
    pub open spec fn message(self) -> Seq<char> {
        match self {
            VerifyError::Missing => "no signature found"@,
            VerifyError::Invalid(message) => "signature is invalid: "@ + message@,
            VerifyError::Untrusted(message) => "signer is not trusted: "@ + message@,
            VerifyError::Io(source) => "reading the signature: "@ + source@,
        }
    }

    /// The error written out.
    pub fn to_string(&self) -> (r: String)
        ensures
            r@ == self.message(),
    {
        match self {
            VerifyError::Missing => "no signature found".to_owned(),
            VerifyError::Invalid(message) => {
                let mut out = "signature is invalid: ".to_owned();
                out.append(message.as_str());
                out
            },
            VerifyError::Untrusted(message) => {
                let mut out = "signer is not trusted: ".to_owned();
                out.append(message.as_str());
                out
            },
            VerifyError::Io(source) => {
                let mut out = "reading the signature: ".to_owned();
                out.append(source.as_str());
                out
            },
        }
    }
}

/// Checks a plugin's signature against the host's trust root.
///
/// Implementations decide what counts as trusted; the registry only decides what to do
/// with the answer.
pub trait PluginVerifier: Send + Sync {
    /// Whether a directory may be ruled on so: any ruling may come where a verifier does not
    /// say more.
    open spec fn vouches(
        &self,
        digest: &DirectoryDigest,
        dir: &str,
        r: Result<Signer, VerifyError>,
    ) -> bool {
        true
    }

    /// Verifies `dir`'s signature over `digest`, returning who signed it.
    fn verify(&self, digest: &DirectoryDigest, dir: &str) -> (r: Result<Signer, VerifyError>)
        ensures
            self.vouches(digest, dir, r),
    ;
}

/// Whether a verifier may rule so on a digest of a directory.
pub open spec fn may_vouch(
    verifier: &Box<dyn PluginVerifier>,
    digest: DirectoryDigest,
    dir: Seq<char>,
    ruling: Result<Signer, VerifyError>,
) -> bool {
    exists|at: &str| at@ == dir && #[trigger] (**verifier).vouches(&digest, at, ruling)
}

/// A file that a digest covers: its path and the hash of its contents.
pub type Covered = (Seq<char>, Seq<u8>);

/// The bytes the root digest is taken over: for each file its path, a zero byte, the hash
/// of its contents and a zero byte.
pub open spec fn layout(files: Seq<Covered>) -> Seq<u8>
    decreases files.len(),
{
    if files.len() == 0 {
        Seq::empty()
    } else {
        layout(files.drop_last()) + vstd::utf8::encode_utf8(files.last().0) + seq![0u8]
            + files.last().1 + seq![0u8]
    }
}

/// The contents of the last file of a listing that has a path.
pub open spec fn last_at(files: Seq<(String, Vec<u8>)>, path: Seq<char>) -> Option<Seq<u8>>
    decreases files.len(),
{
    if files.len() == 0 {
        None
    } else if files.last().0@ == path {
        Some(files.last().1@)
    } else {
        last_at(files.drop_last(), path)
    }
}

/// The paths of covered files.
pub open spec fn paths(files: Seq<Covered>) -> Seq<Seq<char>> {
    files.map_values(|f: Covered| f.0)
}

/// Where a path stands among covered files.
pub open spec fn hash_place(files: Seq<Covered>, path: Seq<char>) -> int {
    choose|i: int| 0 <= i < files.len() && #[trigger] files[i].0 == path
}

/// The hash recorded for a path.
pub open spec fn hash_at(files: Seq<Covered>, path: Seq<char>) -> Option<Seq<u8>> {
    if exists|i: int| 0 <= i < files.len() && #[trigger] files[i].0 == path {
        Some(files[hash_place(files, path)].1)
    } else {
        None
    }
}

/// The hash a listing gives a path: that of the last file with the path, but for the files
/// that carry the signature.
pub open spec fn listed_hash(files: Seq<(String, Vec<u8>)>, path: Seq<char>) -> Option<Seq<u8>> {
    match last_at(files, path) {
        Some(contents) => if excluded(path) {
            None
        } else {
            Some(sha256_of(contents))
        },
        None => None,
    }
}

/// Whether covered files are those of a listing: in the order of their paths, each path
/// once, each with the hash that the listing gives it.
pub open spec fn covers_listing(covered: Seq<Covered>, files: Seq<(String, Vec<u8>)>) -> bool {
    &&& names::rising(paths(covered))
    &&& forall|path: Seq<char>| #[trigger] hash_at(covered, path) == listed_hash(files, path)
}

/// A canonical digest over every file in a plugin directory.
#[derive(Debug, PartialEq, Eq)]
pub struct DirectoryDigest {
    root: [u8; 32],
    preimage: Vec<u8>,
    files: NameMap<[u8; 32]>,
}

/// The files of a map of hashes.
pub open spec fn covered_entries(entries: Seq<(String, [u8; 32])>) -> Seq<Covered> {
    entries.map_values(|e: (String, [u8; 32])| (e.0@, e.1@))
}

impl Clone for DirectoryDigest {
    fn clone(&self) -> (r: Self)
        ensures
            r.covered() == self.covered(),
    {
        proof {
            use_type_invariant(self);
        }
        let n: usize = self.files.entries.len();
        let mut entries: Vec<(String, [u8; 32])> = Vec::new();
        let mut i: usize = 0;
        while i < n
            invariant
                n == self.files.entries.len(),
                i <= n,
                entries@ =~= self.files.entries@.subrange(0, i as int),
            decreases n - i,
        {
            let entry = &self.files.entries[i];
            entries.push((entry.0.clone(), entry.1));
            i = i + 1;
        }
        let preimage = copy_bytes(&self.preimage);
        proof {
            assert(entries@ =~= self.files.entries@);
            assert(preimage@ =~= self.preimage@);
        }
        DirectoryDigest { root: self.root, preimage, files: NameMap { entries } }
    }
}

fn copy_bytes(bytes: &Vec<u8>) -> (r: Vec<u8>)
    ensures
        r@ == bytes@,
{
    let mut out: Vec<u8> = Vec::new();
    append_bytes(&mut out, bytes.as_slice());
    proof {
        assert(out@ =~= bytes@);
    }
    out
}

fn append_bytes(out: &mut Vec<u8>, bytes: &[u8])
    ensures
        final(out)@ == old(out)@ + bytes@,
{
    let n: usize = bytes.len();
    let mut i: usize = 0;
    while i < n
        invariant
            n == bytes@.len(),
            i <= n,
            out@ =~= old(out)@ + bytes@.subrange(0, i as int),
        decreases n - i,
    {
        out.push(bytes[i]);
        i = i + 1;
    }
    proof {
        assert(bytes@.subrange(0, n as int) =~= bytes@);
    }
}

impl DirectoryDigest {
    #[verifier::type_invariant]
    closed spec fn valid(self) -> bool {
        &&& self.files.wf()
        &&& self.preimage@ == layout(covered_entries(self.files.entries@))
        &&& self.root@ == sha256_of(self.preimage@)
    }

    /// The files covered, in the order of their paths, each with its hash.
    pub closed spec fn covered(self) -> Seq<Covered> {
        covered_entries(self.files.entries@)
    }

    /// The root digest in hexadecimal.
    pub open spec fn fingerprint(self) -> Seq<char> {
        text::hex(sha256_of(layout(self.covered())))
    }

    /// Hashes every file of a directory, given by its path and contents, but those that
    /// carry the signature.
    pub fn compute(files: &Vec<(String, Vec<u8>)>) -> (r: DirectoryDigest)
        ensures
            covers_listing(r.covered(), files@),
    {
        let n: usize = files.len();
        let mut map: NameMap<[u8; 32]> = NameMap::new();
        let mut i: usize = 0;
        while i < n
            invariant
                n == files.len(),
                i <= n,
                map.wf(),
                forall|path: Seq<char>|
                    hash_view(#[trigger] map.at(path)) == listed_hash(
                        files@.subrange(0, i as int),
                        path,
                    ),
            decreases n - i,
        {
            let entry = &files[i];
            let ghost before = map;
            proof {
                assert(files@.subrange(0, i + 1).drop_last() =~= files@.subrange(0, i as int));
            }
            if !is_excluded(entry.0.as_str()) {
                let hash = sha256(entry.1.as_slice());
                map.insert(entry.0.clone(), hash);
            }
            proof {
                assert forall|path: Seq<char>| hash_view(#[trigger] map.at(path)) == listed_hash(
                    files@.subrange(0, i + 1),
                    path,
                ) by {
                    assert(hash_view(before.at(path)) == listed_hash(
                        files@.subrange(0, i as int),
                        path,
                    ));
                }
            }
            i = i + 1;
        }
        proof {
            assert(files@.subrange(0, n as int) =~= files@);
        }
        let preimage = fold(&map);
        let root = sha256(preimage.as_slice());
        proof {
            let covered = covered_entries(map.entries@);
            assert(paths(covered) =~= map.keys());
            assert forall|path: Seq<char>| #[trigger] hash_at(covered, path) == listed_hash(
                files@,
                path,
            ) by {
                entry_hash(map, path);
                assert(hash_view(map.at(path)) == listed_hash(files@, path));
            }
        }
        DirectoryDigest { root, preimage, files: map }
    }

    /// The root digest, which is what gets signed.
    pub fn root(&self) -> (r: &[u8; 32])
        ensures
            r@ == sha256_of(layout(self.covered())),
    {
        proof {
            use_type_invariant(self);
        }
        &self.root
    }

    /// The exact bytes the root digest is taken over, for external tooling to sign.
    pub fn preimage(&self) -> (r: &Vec<u8>)
        ensures
            r@ == layout(self.covered()),
    {
        proof {
            use_type_invariant(self);
        }
        &self.preimage
    }

    /// The root digest as lowercase hex.
    pub fn hex(&self) -> (r: String)
        ensures
            r@ == self.fingerprint(),
    {
        proof {
            use_type_invariant(self);
        }
        let mut bytes: Vec<u8> = Vec::new();
        append_bytes(&mut bytes, self.root.as_slice());
        proof {
            assert(bytes@ =~= self.root@);
        }
        text::to_hex(&bytes)
    }

    /// Number of files covered.
    pub fn len(&self) -> (r: usize)
        ensures
            r == self.covered().len(),
    {
        self.files.len()
    }

    /// Whether the directory held no coverable files.
    pub fn is_empty(&self) -> (r: bool)
        ensures
            r == (self.covered().len() == 0),
    {
        self.files.is_empty()
    }

    /// Confirms that `contents` are the bytes recorded for `relative` at digest time.
    pub fn matches(&self, relative: &str, contents: &[u8]) -> (r: bool)
        ensures
            r == (hash_at(self.covered(), relative@) == Some(sha256_of(contents@))),
    {
        proof {
            use_type_invariant(self);
            entry_hash(self.files, relative@);
        }
        let actual = sha256(contents);
        match self.files.get(relative) {
            Some(expected) => same_hash(expected, &actual),
            None => false,
        }
    }

    /// Whether the digest covers this relative path at all.
    pub fn covers(&self, relative: &str) -> (r: bool)
        ensures
            r == (hash_at(self.covered(), relative@) is Some),
    {
        proof {
            use_type_invariant(self);
            entry_hash(self.files, relative@);
        }
        self.files.contains_key(relative)
    }
}

/// The view of an optional hash.
spec fn hash_view(hash: Option<[u8; 32]>) -> Option<Seq<u8>> {
    match hash {
        Some(hash) => Some(hash@),
        None => None,
    }
}

proof fn entry_hash(map: NameMap<[u8; 32]>, path: Seq<char>)
    requires
        map.wf(),
    ensures
        hash_at(covered_entries(map.entries@), path) == hash_view(map.at(path)),
        (hash_at(covered_entries(map.entries@), path) is Some) == map.has(path),
{
    let covered = covered_entries(map.entries@);
    if map.has(path) {
        let p = map.place(path);
        assert(covered[p].0 == path);
        let q = hash_place(covered, path);
        assert(map.entries@[q].0@ == path);
        map.at_place(q);
    } else if exists|i: int| 0 <= i < covered.len() && #[trigger] covered[i].0 == path {
        let q = hash_place(covered, path);
        assert(map.entries@[q].0@ == path);
    }
}

fn same_hash(a: &[u8; 32], b: &[u8; 32]) -> (r: bool)
    ensures
        r == (a@ == b@),
{
    let mut i: usize = 0;
    while i < 32
        invariant
            i <= 32,
            forall|j: int| 0 <= j < i ==> a@[j] == b@[j],
        decreases 32 - i,
    {
        if a[i] != b[i] {
            proof {
                assert(a@[i as int] != b@[i as int]);
            }
            return false;
        }
        i = i + 1;
    }
    proof {
        assert(a@ =~= b@);
    }
    true
}

/// The bytes the root digest is taken over, given the hash of each file.
pub fn fold(files: &NameMap<[u8; 32]>) -> (r: Vec<u8>)
    ensures
        r@ == layout(covered_entries(files.entries@)),
{
    let n: usize = files.entries.len();
    let mut out: Vec<u8> = Vec::new();
    let mut i: usize = 0;
    while i < n
        invariant
            n == files.entries.len(),
            i <= n,
            out@ == layout(covered_entries(files.entries@).subrange(0, i as int)),
        decreases n - i,
    {
        let entry = &files.entries[i];
        let ghost had = out@;
        append_bytes(&mut out, entry.0.as_str().as_bytes());
        out.push(0);
        append_bytes(&mut out, entry.1.as_slice());
        out.push(0);
        proof {
            let all = covered_entries(files.entries@);
            let here = all.subrange(0, i + 1);
            assert(here.drop_last() =~= all.subrange(0, i as int));
            assert(here.last() == (entry.0@, entry.1@));
            assert(out@ =~= had + vstd::utf8::encode_utf8(entry.0@) + seq![0u8] + entry.1@
                + seq![0u8]);
        }
        i = i + 1;
    }
    proof {
        assert(covered_entries(files.entries@).subrange(0, n as int) =~= covered_entries(
            files.entries@,
        ));
    }
    out
}

/// The digest of a directory does not depend on the order in which its files were listed:
/// two listings that give each path the same hash are covered by the same files.
pub proof fn listing_order_is_irrelevant(
    a: Seq<Covered>,
    b: Seq<Covered>,
    one: Seq<(String, Vec<u8>)>,
    other: Seq<(String, Vec<u8>)>,
)
    requires
        covers_listing(a, one),
        covers_listing(b, other),
        forall|path: Seq<char>| #[trigger] listed_hash(one, path) == listed_hash(other, path),
    ensures
        a == b,
        layout(a) == layout(b),
{
    let pa = paths(a);
    let pb = paths(b);
    assert forall|path: Seq<char>| pa.contains(path) == pb.contains(path) by {
        assert(hash_at(a, path) == listed_hash(one, path));
        assert(hash_at(b, path) == listed_hash(other, path));
        path_listed(a, path);
        path_listed(b, path);
    }
    names::rising_unique(pa, pb);
    assert forall|i: int| 0 <= i < a.len() implies a[i] == b[i] by {
        assert(pa[i] == a[i].0);
        assert(pb[i] == b[i].0);
        hash_of_place(a, i);
        hash_of_place(b, i);
        assert(hash_at(a, a[i].0) == listed_hash(one, a[i].0));
        assert(hash_at(b, b[i].0) == listed_hash(other, b[i].0));
    }
    assert(a.len() == pa.len());
    assert(b.len() == pb.len());
    assert(a =~= b);
}

proof fn path_listed(files: Seq<Covered>, path: Seq<char>)
    ensures
        paths(files).contains(path) == (hash_at(files, path) is Some),
{
    if paths(files).contains(path) {
        let i = choose|i: int| 0 <= i < paths(files).len() && paths(files)[i] == path;
        assert(files[i].0 == path);
    }
    if hash_at(files, path) is Some {
        let i = hash_place(files, path);
        assert(paths(files)[i] == path);
    }
}

proof fn hash_of_place(files: Seq<Covered>, i: int)
    requires
        names::rising(paths(files)),
        0 <= i < files.len(),
    ensures
        hash_at(files, files[i].0) == Some(files[i].1),
{
    let path = files[i].0;
    let q = hash_place(files, path);
    assert(paths(files)[q] == path);
    assert(paths(files)[i] == path);
    names::before_irreflexive(path);
    if q < i {
        assert(names::before(paths(files)[q], paths(files)[i]));
    } else if i < q {
        assert(names::before(paths(files)[i], paths(files)[q]));
    }
}

/// One entry on a revocation list: a plugin build by its digest, or a signer by its
/// identity, with an optional reason the host can log or show.
#[derive(Debug, Clone, PartialEq, Eq)]
pub struct Revocation {
    /// Hex root digest of a specific plugin build.
    pub digest: Option<String>,
    /// Signer identity, revoking everything that identity signed.
    pub identity: Option<String>,
    /// Why, for the host's logs.
    pub reason: Option<String>,
}

/// How a revocation of something is told.
pub open spec fn revoked_text(what: Seq<char>, reason: Option<Seq<char>>) -> Seq<char> {
    match reason {
        Some(reason) => what + " is revoked: "@ + reason,
        None => what + " is revoked"@,
    }
}

/// Whether an entry names a build. The case of the digits and white space around them do
/// not count.
pub open spec fn names_build(entry: Revocation, build: Option<Seq<char>>) -> bool {
    match (entry.digest, build) {
        (Some(revoked), Some(actual)) => text::lower(text::trimmed(revoked@)) == text::lower(
            actual,
        ),
        _ => false,
    }
}

/// Whether an entry names a signer.
pub open spec fn names_signer(entry: Revocation, identity: Option<Seq<char>>) -> bool {
    match (entry.identity, identity) {
        (Some(revoked), Some(actual)) => revoked@ == actual,
        _ => false,
    }
}

/// Why the entries from `from` on refuse a build and its signer: what the first of them
/// that names either says.
pub open spec fn refusal_from(
    entries: Seq<Revocation>,
    build: Option<Seq<char>>,
    identity: Option<Seq<char>>,
    from: int,
) -> Option<Seq<char>>
    decreases entries.len() - from,
{
    if from < 0 || from >= entries.len() {
        None
    } else if names_build(entries[from], build) {
        Some(revoked_text("this build"@, text::opt(entries[from].reason)))
    } else if names_signer(entries[from], identity) {
        Some(revoked_text("signer `"@ + identity->0 + "`"@, text::opt(entries[from].reason)))
    } else {
        refusal_from(entries, build, identity, from + 1)
    }
}

/// Why a list refuses a build and its signer, if it does.
pub open spec fn refusal(
    entries: Seq<Revocation>,
    build: Option<Seq<char>>,
    identity: Option<Seq<char>>,
) -> Option<Seq<char>> {
    refusal_from(entries, build, identity, 0)
}

impl Revocation {
    fn describe(&self, what: &str) -> (r: String)
        ensures
            r@ == revoked_text(what@, text::opt(self.reason)),
    {
        let mut out = what.to_owned();
        match &self.reason {
            Some(reason) => {
                out.append(" is revoked: ");
                out.append(reason.as_str());
            },
            None => {
                out.append(" is revoked");
            },
        }
        out
    }
}

/// Builds and plugins the host refuses to load, whatever their signature says.
///
/// It is checked after verification succeeds: a revoked signature is still a valid one.
#[derive(Debug, PartialEq, Eq)]
pub struct Revocations {
    revoked: Vec<Revocation>,
}

impl View for Revocations {
    type V = Seq<Revocation>;

    closed spec fn view(&self) -> Seq<Revocation> {
        self.revoked@
    }
}

/// The message for an entry that names nothing.
pub open spec fn nameless_text(path: Seq<char>, position: int) -> Seq<char> {
    path + ": revoked entry "@ + text::decimal(position as nat)
        + " names neither `digest` nor `identity`"@
}

/// The first entry at or after `from` that names neither a build nor a signer.
pub open spec fn first_nameless(entries: Seq<Revocation>, from: int) -> Option<int>
    decreases entries.len() - from,
{
    if from < 0 || from >= entries.len() {
        None
    } else if entries[from].digest is None && entries[from].identity is None {
        Some(from)
    } else {
        first_nameless(entries, from + 1)
    }
}

impl Default for Revocations {
    fn default() -> (r: Revocations)
        ensures
            r@.len() == 0,
    {
        Revocations { revoked: Vec::new() }
    }
}

impl Revocations {
    /// An empty list, which refuses nothing.
    pub fn new() -> (r: Revocations)
        ensures
            r@.len() == 0,
    {
        Revocations { revoked: Vec::new() }
    }

    /// A list of entries, as the file at `path` holds them. An entry that names neither a
    /// digest nor an identity is a configuration error.
    pub fn load(path: &str, revoked: Vec<Revocation>) -> (r: Result<Revocations, VerifyError>)
        ensures
            match first_nameless(revoked@, 0) {
                None => r matches Ok(list) && list@ == revoked@,
                Some(at) => r matches Err(VerifyError::Invalid(message)) && message@
                    == nameless_text(path@, at + 1),
            },
    {
        let n: usize = revoked.len();
        let mut i: usize = 0;
        while i < n
            invariant
                n == revoked.len(),
                i <= n,
                first_nameless(revoked@, 0) == first_nameless(revoked@, i as int),
            decreases n - i,
        {
            if revoked[i].digest.is_none() && revoked[i].identity.is_none() {
                let mut out = path.to_owned();
                out.append(": revoked entry ");
                out.append(text::number(i as u64 + 1).as_str());
                out.append(" names neither `digest` nor `identity`");
                return Err(VerifyError::Invalid(out));
            }
            i = i + 1;
        }
        Ok(Revocations { revoked })
    }

    /// Refuses one plugin build by its hex root digest.
    pub fn deny_digest(self, digest: &str, reason: &str) -> (r: Revocations)
        ensures
            r@.len() == self@.len() + 1,
            r@.drop_last() == self@,
            text::opt(r@.last().digest) == Some(digest@),
            r@.last().identity is None,
            text::opt(r@.last().reason) == Some(reason@),
    {
        let mut revoked = self.revoked;
        revoked.push(
            Revocation {
                digest: Some(digest.to_owned()),
                identity: None,
                reason: Some(reason.to_owned()),
            },
        );
        proof {
            assert(revoked@.drop_last() =~= self@);
        }
        Revocations { revoked }
    }

    /// Refuses everything signed by one identity.
    pub fn deny_identity(self, identity: &str, reason: &str) -> (r: Revocations)
        ensures
            r@.len() == self@.len() + 1,
            r@.drop_last() == self@,
            r@.last().digest is None,
            text::opt(r@.last().identity) == Some(identity@),
            text::opt(r@.last().reason) == Some(reason@),
    {
        let mut revoked = self.revoked;
        revoked.push(
            Revocation {
                digest: None,
                identity: Some(identity.to_owned()),
                reason: Some(reason.to_owned()),
            },
        );
        proof {
            assert(revoked@.drop_last() =~= self@);
        }
        Revocations { revoked }
    }

    /// The entries on the list.
    pub fn entries(&self) -> (r: &Vec<Revocation>)
        ensures
            r@ == self@,
    {
        &self.revoked
    }

    /// Whether the list refuses nothing.
    pub fn is_empty(&self) -> (r: bool)
        ensures
            r == (self@.len() == 0),
    {
        self.revoked.len() == 0
    }

    /// Whether some entry names a build, so that a digest is needed to check the list.
    pub fn needs_digest(&self) -> (r: bool)
        ensures
            r == exists|i: int| 0 <= i < self@.len() && (#[trigger] self@[i]).digest is Some,
    {
        let n: usize = self.revoked.len();
        let mut i: usize = 0;
        while i < n
            invariant
                n == self.revoked.len(),
                i <= n,
                forall|j: int| 0 <= j < i ==> (#[trigger] self@[j]).digest is None,
            decreases n - i,
        {
            if self.revoked[i].digest.is_some() {
                proof {
                    assert(self@[i as int].digest is Some);
                }
                return true;
            }
            i = i + 1;
        }
        false
    }

    /// Returns why this plugin is refused, or `None` if it is not.
    pub fn check(&self, digest: Option<&DirectoryDigest>, signer: &Signer) -> (r: Option<String>)
        ensures
            text::opt(r) == refusal(self@, build_of(digest), identity_of(signer@)),
    {
        let hex = match digest {
            Some(digest) => Some(digest.hex()),
            None => None,
        };
        let identity = signer.identity();
        let n: usize = self.revoked.len();
        let mut i: usize = 0;
        while i < n
            invariant
                n == self.revoked.len(),
                i <= n,
                text::opt(hex) == build_of(digest),
                opt_str(identity) == identity_of(signer@),
                refusal(self@, build_of(digest), identity_of(signer@)) == refusal_from(
                    self@,
                    build_of(digest),
                    identity_of(signer@),
                    i as int,
                ),
            decreases n - i,
        {
            let entry = &self.revoked[i];
            match (&entry.digest, &hex) {
                (Some(revoked), Some(actual)) => {
                    if text::same_ignoring_case(text::trim(revoked.as_str()).as_str(), actual.as_str()) {
                        return Some(entry.describe("this build"));
                    }
                },
                _ => {},
            }
            match (&entry.identity, identity) {
                (Some(revoked), Some(actual)) => {
                    if text::same(revoked.as_str(), actual) {
                        let mut what = "signer `".to_owned();
                        what.append(actual);
                        what.append("`");
                        return Some(entry.describe(what.as_str()));
                    }
                },
                _ => {},
            }
            i = i + 1;
        }
        None
    }
}

/// The fingerprint of an optional digest.
pub open spec fn build_of(digest: Option<&DirectoryDigest>) -> Option<Seq<char>> {
    match digest {
        Some(digest) => Some(digest.fingerprint()),
        None => None,
    }
}

/// A list refuses exactly what one of its entries names.
pub proof fn refused_when_named(
    entries: Seq<Revocation>,
    build: Option<Seq<char>>,
    identity: Option<Seq<char>>,
)
    ensures
        refusal(entries, build, identity) is Some <==> exists|i: int|
            0 <= i < entries.len() && (names_build(#[trigger] entries[i], build) || names_signer(
                entries[i],
                identity,
            )),
{
    refused_from(entries, build, identity, 0);
}

proof fn refused_from(
    entries: Seq<Revocation>,
    build: Option<Seq<char>>,
    identity: Option<Seq<char>>,
    from: int,
)
    requires
        0 <= from <= entries.len(),
    ensures
        refusal_from(entries, build, identity, from) is Some <==> exists|i: int|
            from <= i < entries.len() && (names_build(#[trigger] entries[i], build)
                || names_signer(entries[i], identity)),
    decreases entries.len() - from,
{
    if from < entries.len() {
        refused_from(entries, build, identity, from + 1);
    }
}

/// Adding an entry lets nothing through that was refused before.
pub proof fn refusals_only_grow(
    entries: Seq<Revocation>,
    more: Revocation,
    build: Option<Seq<char>>,
    identity: Option<Seq<char>>,
)
    ensures
        refusal(entries, build, identity) is Some ==> refusal(
            entries.push(more),
            build,
            identity,
        ) == refusal(entries, build, identity),
        refusal(entries, build, identity) is None && (names_build(more, build) || names_signer(
            more,
            identity,
        )) ==> refusal(entries.push(more), build, identity) is Some,
{
    grows_from(entries, more, build, identity, 0);
}

proof fn grows_from(
    entries: Seq<Revocation>,
    more: Revocation,
    build: Option<Seq<char>>,
    identity: Option<Seq<char>>,
    from: int,
)
    requires
        0 <= from <= entries.len(),
    ensures
        refusal_from(entries, build, identity, from) is Some ==> refusal_from(
            entries.push(more),
            build,
            identity,
            from,
        ) == refusal_from(entries, build, identity, from),
        refusal_from(entries, build, identity, from) is None && (names_build(more, build)
            || names_signer(more, identity)) ==> refusal_from(
            entries.push(more),
            build,
            identity,
            from,
        ) is Some,
    decreases entries.len() - from,
{
    if from < entries.len() {
        assert(entries.push(more)[from] == entries[from]);
        grows_from(entries, more, build, identity, from + 1);
    } else {
        assert(entries.push(more)[from] == more);
    }
}

} // verus!
