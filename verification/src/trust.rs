//! On whose word a plugin loads: signatures, revocations and pins, in that order.
//!
//! Being revoked is a fact about a signature that is otherwise perfectly valid, so the list
//! is consulted after verification. A pin is consulted last: it decides whether the bytes
//! and the signer that were established are the ones the host wrote down.

use crate::failure::{FailureReason, Failed, LoadFailure, Why};
use crate::lock;
use crate::lock::Lockfile;
use crate::manifest::Manifest;
use crate::registry::{place_in, plugin_names, Plugin, Registry};
use crate::signature;
use crate::signature::{DirectoryDigest, Revocation, Revocations, Signer, SignerModel, VerifyError};
use crate::text;
use crate::trust_laws::{a_new_list_unloads_whom_it_names, is_kept, is_reported, stays};
use vstd::prelude::*;

verus! {

/// The files of a plugin directory, by path and contents, or why it could not be read.
pub type Listing = Result<Vec<(String, Vec<u8>)>, String>;

/// Who signed a plugin, given what a verifier said of it, if there is one. A missing
/// signature is not fraud: it leaves the plugin unsigned, unless signatures are required.
pub open spec fn signer_for(verdict: Option<Result<Signer, VerifyError>>, required: bool) -> Result<
    SignerModel,
    Why,
> {
    match verdict {
        Some(Ok(signer)) => Ok(signer@),
        Some(Err(error)) => match error {
            VerifyError::Missing => if required {
                Err(Why::Unsigned)
            } else {
                Ok(None)
            },
            VerifyError::Untrusted(_) => Err(Why::UntrustedSigner(error.message())),
            VerifyError::Io(source) => Err(Why::Io(source@)),
            VerifyError::Invalid(_) => Err(Why::SignatureInvalid(error.message())),
        },
        None => if required {
            Err(Why::Unsigned)
        } else {
            Ok(None)
        },
    }
}

/// The fingerprint of an optional digest.
pub open spec fn fingerprint_of(digest: Option<DirectoryDigest>) -> Option<Seq<char>> {
    match digest {
        Some(digest) => Some(digest.fingerprint()),
        None => None,
    }
}

/// Why revocations refuse a build and its signer, if there are any and they do.
pub open spec fn refused(
    revocations: Option<Revocations>,
    build: Option<Seq<char>>,
    signer: SignerModel,
) -> Option<Seq<char>> {
    match revocations {
        Some(list) => signature::refusal(list@, build, signature::identity_of(signer)),
        None => None,
    }
}

/// What keeps a plugin from matching its pin, if there is a lockfile and something does.
pub open spec fn unpinned(
    lockfile: Option<Lockfile>,
    manifest: Manifest,
    build: Option<Seq<char>>,
    signer: SignerModel,
) -> Option<lock::LockFault> {
    match (lockfile, build) {
        (Some(lockfile), Some(fingerprint)) => lock::pin_fault(
            manifest.name@,
            lockfile.pinned(manifest.name@),
            manifest.published(),
            fingerprint,
            signer,
        ),
        _ => None,
    }
}

/// On whose word a plugin loads, or why it does not.
pub open spec fn admitted<I, E>(
    registry: Registry<I, E>,
    manifest: Manifest,
    build: Option<Seq<char>>,
    verdict: Option<Result<Signer, VerifyError>>,
) -> Result<SignerModel, Why> {
    match signer_for(verdict, registry.require_signatures) {
        Err(why) => Err(why),
        Ok(signer) => match refused(registry.revocations, build, signer) {
            Some(reason) => Err(Why::Revoked(reason)),
            None => match unpinned(registry.lockfile, manifest, build, signer) {
                Some(fault) => Err(Why::Lock(fault)),
                None => Ok(signer),
            },
        },
    }
}

/// Whether a verdict is what a registry's verifier may say of a digest of a directory. Without
/// a verifier there is none.
pub open spec fn heard<I, E>(
    registry: Registry<I, E>,
    digest: DirectoryDigest,
    dir: Seq<char>,
    verdict: Option<Result<Signer, VerifyError>>,
) -> bool {
    match registry.verifier {
        None => verdict is None,
        Some(verifier) => verdict matches Some(ruling) && signature::may_vouch(
            &verifier,
            digest,
            dir,
            ruling,
        ),
    }
}

/// Whether a registry may rule so on a plugin, given the files of its directory. They are
/// looked at only where a digest is needed; what a verifier says of it is its own.
pub open spec fn ruled_on<I, E>(
    registry: Registry<I, E>,
    manifest: Manifest,
    listing: Listing,
    r: Result<(Signer, Option<DirectoryDigest>), FailureReason>,
) -> bool {
    if !needs_digest(registry) {
        &&& admission_view(r) == admitted(registry, manifest, None, None)
        &&& r matches Ok((_, digest)) ==> digest is None
    } else {
        match listing {
            Err(source) => r matches Err(reason) && reason@ == Why::Io(source@),
            Ok(files) => exists|
                digest: DirectoryDigest,
                verdict: Option<Result<Signer, VerifyError>>,
            |
                {
                    &&& signature::covers_listing(digest.covered(), files@)
                    &&& #[trigger] heard(registry, digest, manifest.dir@, verdict)
                    &&& admission_view(r) == admitted(
                        registry,
                        manifest,
                        Some(digest.fingerprint()),
                        verdict,
                    )
                    &&& r matches Ok((_, shown)) ==> shown == Some(digest)
                },
        }
    }
}

/// Whether a registry needs the digest of a plugin to admit it.
pub open spec fn needs_digest<I, E>(registry: Registry<I, E>) -> bool {
    registry.verifier is Some || registry.lockfile is Some || match registry.revocations {
        Some(list) => list@.len() > 0,
        None => false,
    }
}

/// Why one loaded plugin is unloaded under a new revocation list, if it is. A plugin loaded
/// without a digest is judged by the digest of its directory as it stands, and unloaded if
/// that cannot be read: a trust decision that cannot be made is not one to resolve in the
/// plugin's favour.
pub open spec fn unloaded_for(
    list: Seq<Revocation>,
    digest: Option<DirectoryDigest>,
    hashed: Option<Result<DirectoryDigest, String>>,
    signer: SignerModel,
) -> Option<Why> {
    let named = names_builds(list);
    match (digest, named, hashed) {
        (None, true, Some(Err(source))) => Some(Why::Io(source@)),
        _ => {
            let build = match (digest, named, hashed) {
                (Some(digest), _, _) => Some(digest.fingerprint()),
                (None, true, Some(Ok(digest))) => Some(digest.fingerprint()),
                _ => None,
            };
            match signature::refusal(list, build, signature::identity_of(signer)) {
                Some(reason) => Some(Why::Revoked(reason)),
                None => None,
            }
        },
    }
}

/// Whether some entry of a list names a build.
pub open spec fn names_builds(list: Seq<Revocation>) -> bool {
    exists|i: int| 0 <= i < list.len() && (#[trigger] list[i]).digest is Some
}

/// Why each of the first `n` plugins that is unloaded is.
pub open spec fn unloaded_upto<I, E>(
    list: Seq<Revocation>,
    plugins: Seq<Plugin<I, E>>,
    hashed: Seq<Option<Result<DirectoryDigest, String>>>,
    n: int,
) -> Seq<Failed>
    decreases n,
{
    if n <= 0 {
        Seq::empty()
    } else {
        let done = unloaded_upto(list, plugins, hashed, n - 1);
        let plugin = plugins[n - 1];
        match unloaded_for(list, plugin.digest, hashed[n - 1], plugin.signer@) {
            Some(reason) => done.push(
                Failed { name: plugin.manifest.name@, dir: plugin.manifest.dir@, reason },
            ),
            None => done,
        }
    }
}

/// The first `n` plugins that stay loaded.
pub open spec fn kept_upto<I, E>(
    list: Seq<Revocation>,
    plugins: Seq<Plugin<I, E>>,
    hashed: Seq<Option<Result<DirectoryDigest, String>>>,
    n: int,
) -> Seq<Plugin<I, E>>
    decreases n,
{
    if n <= 0 {
        Seq::empty()
    } else {
        let done = kept_upto(list, plugins, hashed, n - 1);
        let plugin = plugins[n - 1];
        if unloaded_for(list, plugin.digest, hashed[n - 1], plugin.signer@) is Some {
            done
        } else {
            done.push(plugin)
        }
    }
}

/// Why a loaded plugin is unloaded under a new revocation list, if it is.
pub fn judge_loaded(
    revocations: &Revocations,
    digest: Option<&DirectoryDigest>,
    hashed: Option<&Result<DirectoryDigest, String>>,
    signer: &Signer,
) -> (r: Option<FailureReason>)
    requires
        digest is None && names_builds(revocations@) ==> hashed is Some,
    ensures
        reason_view(r) == unloaded_for(
            revocations@,
            owned_digest(digest),
            owned_hash(hashed),
            signer@,
        ),
{
    let named = revocations.needs_digest();
    let build: Option<&DirectoryDigest> = match digest {
        Some(digest) => Some(digest),
        None => if named {
            match hashed {
                Some(result) => match result {
                    Ok(digest) => Some(digest),
                    Err(source) => {
                        return Some(FailureReason::Io(source.clone()));
                    },
                },
                None => None,
            }
        } else {
            None
        },
    };
    match revocations.check(build, signer) {
        Some(reason) => Some(FailureReason::Revoked(reason)),
        None => None,
    }
}

/// The view of an optional reason.
pub open spec fn reason_view(r: Option<FailureReason>) -> Option<Why> {
    match r {
        Some(reason) => Some(reason@),
        None => None,
    }
}

pub open spec fn owned_digest(digest: Option<&DirectoryDigest>) -> Option<DirectoryDigest> {
    match digest {
        Some(digest) => Some(*digest),
        None => None,
    }
}

pub open spec fn owned_hash(hashed: Option<&Result<DirectoryDigest, String>>) -> Option<
    Result<DirectoryDigest, String>,
> {
    match hashed {
        Some(hashed) => Some(*hashed),
        None => None,
    }
}

/// What an admission says.
pub open spec fn admission_view(r: Result<(Signer, Option<DirectoryDigest>), FailureReason>) -> Result<
    SignerModel,
    Why,
> {
    match r {
        Ok((signer, _)) => Ok(signer@),
        Err(reason) => Err(reason@),
    }
}

impl<I, E> Registry<I, E> {
    /// Whether the directory of a plugin has to be hashed to admit it: a digest is needed to
    /// verify a signature, to match a pin and to match a revocation.
    pub fn wants_digest(&self) -> (r: bool)
        ensures
            r == needs_digest(*self),
    {
        self.verifier.is_some() || self.lockfile.is_some() || match &self.revocations {
            Some(list) => !list.is_empty(),
            None => false,
        }
    }

    /// Decides on whose word a plugin loads, given its digest and what a verifier said of it.
    pub fn judge(
        &self,
        manifest: &Manifest,
        digest: Option<DirectoryDigest>,
        verdict: Option<Result<Signer, VerifyError>>,
    ) -> (r: Result<(Signer, Option<DirectoryDigest>), FailureReason>)
        requires
            self.wf(),
        ensures
            admission_view(r) == admitted(*self, *manifest, fingerprint_of(digest), verdict),
            r matches Ok((_, out)) ==> out == digest,
    {
        let signer = match verdict {
            Some(result) => match result {
                Ok(signer) => signer,
                Err(error) => match error {
                    VerifyError::Missing => {
                        if self.require_signatures {
                            return Err(FailureReason::Unsigned);
                        }
                        Signer::Unsigned
                    },
                    VerifyError::Untrusted(_) => {
                        return Err(FailureReason::UntrustedSigner(error.to_string()));
                    },
                    VerifyError::Io(source) => {
                        return Err(FailureReason::Io(source));
                    },
                    VerifyError::Invalid(_) => {
                        return Err(FailureReason::SignatureInvalid(error.to_string()));
                    },
                },
            },
            None => {
                if self.require_signatures {
                    return Err(FailureReason::Unsigned);
                }
                Signer::Unsigned
            },
        };
        match &self.revocations {
            Some(list) => {
                let build: Option<&DirectoryDigest> = match &digest {
                    Some(digest) => Some(digest),
                    None => None,
                };
                match list.check(build, &signer) {
                    Some(reason) => {
                        return Err(FailureReason::Revoked(reason));
                    },
                    None => {},
                }
            },
            None => {},
        }
        match (&self.lockfile, &digest) {
            (Some(lockfile), Some(digest)) => match lockfile.check(manifest, digest, &signer) {
                Err(error) => {
                    return Err(FailureReason::Lock(error));
                },
                Ok(_) => {},
            },
            _ => {},
        }
        Ok((signer, digest))
    }

    /// Verifies a plugin, given the files of its directory, and reports who signed it.
    ///
    /// The files are looked at only where [`Registry::wants_digest`] says so. What a
    /// configured verifier answers is its own; without one the answer follows from the
    /// registry alone.
    pub fn verify_plugin(&self, manifest: &Manifest, listing: Listing) -> (r: Result<
        (Signer, Option<DirectoryDigest>),
        FailureReason,
    >)
        requires
            self.wf(),
        ensures
            ruled_on(*self, *manifest, listing, r),
    {
        if !self.wants_digest() {
            return self.judge(manifest, None, None);
        }
        match listing {
            Err(source) => Err(FailureReason::Io(source)),
            Ok(files) => {
                let digest = DirectoryDigest::compute(&files);
                let verdict = match &self.verifier {
                    Some(verifier) => {
                        let at = manifest.dir.as_str();
                        let ruling = verifier.verify(&digest, at);
                        proof {
                            assert((**verifier).vouches(&digest, at, ruling));
                            assert(signature::may_vouch(verifier, digest, manifest.dir@, ruling));
                        }
                        Some(ruling)
                    },
                    None => None,
                };
                proof {
                    assert(signature::covers_listing(digest.covered(), files@));
                    assert(heard(*self, digest, manifest.dir@, verdict));
                }
                self.judge(manifest, Some(digest), verdict)
            },
        }
    }

    /// Which loaded plugins have to be hashed for a new revocation list to be applied: those
    /// loaded without a digest, where the list names builds.
    pub fn needs_hashing(&self, revocations: &Revocations) -> (r: Vec<bool>)
        ensures
            r@.len() == self.plugins@.len(),
            forall|i: int|
                0 <= i < r@.len() ==> #[trigger] r@[i] == (names_builds(revocations@)
                    && self.plugins@[i].digest is None),
    {
        let named = revocations.needs_digest();
        let n: usize = self.plugins.len();
        let mut out: Vec<bool> = Vec::new();
        let mut i: usize = 0;
        while i < n
            invariant
                n == self.plugins.len(),
                i <= n,
                named == names_builds(revocations@),
                out@.len() == i,
                forall|k: int|
                    0 <= k < i ==> #[trigger] out@[k] == (named && self.plugins@[k].digest is None),
            decreases n - i,
        {
            out.push(named && self.plugins[i].digest.is_none());
            i = i + 1;
        }
        out
    }

    /// Replaces the revocation list and unloads every loaded plugin it now names.
    ///
    /// `hashed` gives, for each loaded plugin that [`Registry::needs_hashing`] names, the
    /// digest of its directory or why that could not be read. Each returned failure names a
    /// plugin that was unloaded and why; every other plugin keeps its place.
    pub fn apply_revocations(
        &mut self,
        revocations: Revocations,
        hashed: &Vec<Option<Result<DirectoryDigest, String>>>,
    ) -> (r: Vec<LoadFailure>)
        requires
            old(self).wf(),
            hashed@.len() == old(self).plugins@.len(),
            forall|i: int|
                0 <= i < hashed@.len() && names_builds(revocations@) && old(
                    self,
                ).plugins@[i].digest is None ==> (#[trigger] hashed@[i]) is Some,
        ensures
            final(self).wf(),
            final(self).revocations == Some(revocations),
            final(self).same_rules(Registry { revocations: Some(revocations), ..*old(self) }),
            crate::failure::failed(r@) == unloaded_upto(
                revocations@,
                old(self).plugins@,
                hashed@,
                old(self).plugins@.len() as int,
            ),
            final(self).plugins@ == kept_upto(
                revocations@,
                old(self).plugins@,
                hashed@,
                old(self).plugins@.len() as int,
            ),
            forall|k: int|
                0 <= k < final(self).plugins@.len() ==> stays(
                    revocations@,
                    old(self).plugins@,
                    hashed@,
                    #[trigger] final(self).plugins@[k],
                ),
            forall|i: int|
                0 <= i < old(self).plugins@.len() ==> if is_kept(
                    revocations@,
                    old(self).plugins@,
                    hashed@,
                    i,
                ) {
                    final(self).plugins@.contains(#[trigger] old(self).plugins@[i])
                } else {
                    is_reported(
                        revocations@,
                        old(self).plugins@[i],
                        hashed@[i],
                        crate::failure::failed(r@),
                    )
                },
    {
        let ghost was = *self;
        let ghost all = self.plugins@;
        let ghost list = revocations@;
        let n: usize = self.plugins.len();
        let mut out: Vec<LoadFailure> = Vec::new();
        let mut i: usize = 0;
        proof {
            assert(crate::failure::failed(out@) =~= unloaded_upto(list, all, hashed@, 0));
        }
        while i < n
            invariant
                *self == was,
                all == was.plugins@,
                list == revocations@,
                n == all.len(),
                hashed@.len() == n,
                forall|k: int|
                    0 <= k < n && names_builds(list) && all[k].digest is None ==> (
                    #[trigger] hashed@[k]) is Some,
                i <= n,
                crate::failure::failed(out@) == unloaded_upto(list, all, hashed@, i as int),
            decreases n - i,
        {
            let plugin = &self.plugins[i];
            let digest: Option<&DirectoryDigest> = plugin.digest();
            let again: Option<&Result<DirectoryDigest, String>> = match &hashed[i] {
                Some(result) => Some(result),
                None => None,
            };
            let ghost had = crate::failure::failed(out@);
            match judge_loaded(&revocations, digest, again, &plugin.signer) {
                Some(reason) => {
                    let failure = LoadFailure {
                        name: plugin.manifest.name.clone(),
                        dir: plugin.manifest.dir.clone(),
                        reason,
                    };
                    out.push(failure);
                    proof {
                        assert(crate::failure::failed(out@) =~= had.push(failure@));
                    }
                },
                None => {},
            }
            i = i + 1;
        }
        // Stored before the removals, so a later load is judged by the same list.
        self.revocations = Some(revocations);
        let m: usize = out.len();
        let mut k: usize = 0;
        proof {
            gone_none(list, all, hashed@);
            assert(kept_but(list, all, hashed@, 0, n as int) =~= all);
        }
        while k < m
            invariant
                was.wf(),
                self.wf(),
                self.revocations == Some(revocations),
                self.same_rules(Registry { revocations: Some(revocations), ..was }),
                all == was.plugins@,
                list == revocations@,
                n == all.len(),
                hashed@.len() == n,
                m == out.len(),
                k <= m,
                crate::failure::failed(out@) == unloaded_upto(list, all, hashed@, n as int),
                self.plugins@ == kept_but(list, all, hashed@, k as int, n as int),
            decreases m - k,
        {
            proof {
                remove_next(list, all, hashed@, k as int, n as int);
                assert(crate::failure::failed(out@)[k as int].name == out@[k as int].name@);
            }
            let _removed = self.remove(out[k].name.as_str());
            k = k + 1;
        }
        proof {
            kept_all(list, all, hashed@, m as int, n as int);
            a_new_list_unloads_whom_it_names(list, all, hashed@);
        }
        out
    }
}

/// The first `n` plugins without the first `k` of those that are unloaded.
spec fn kept_but<I, E>(
    list: Seq<Revocation>,
    plugins: Seq<Plugin<I, E>>,
    hashed: Seq<Option<Result<DirectoryDigest, String>>>,
    k: int,
    n: int,
) -> Seq<Plugin<I, E>>
    decreases n,
{
    if n <= 0 {
        Seq::empty()
    } else {
        let done = kept_but(list, plugins, hashed, k, n - 1);
        let plugin = plugins[n - 1];
        if unloaded_for(list, plugin.digest, hashed[n - 1], plugin.signer@) is Some && unloaded_upto(
            list,
            plugins,
            hashed,
            n - 1,
        ).len() < k {
            done
        } else {
            done.push(plugin)
        }
    }
}

proof fn gone_none<I, E>(
    list: Seq<Revocation>,
    plugins: Seq<Plugin<I, E>>,
    hashed: Seq<Option<Result<DirectoryDigest, String>>>,
)
    ensures
        kept_but(list, plugins, hashed, 0, plugins.len() as int) == plugins,
{
    gone_none_upto(list, plugins, hashed, plugins.len() as int);
    assert(plugins.subrange(0, plugins.len() as int) =~= plugins);
}

proof fn gone_none_upto<I, E>(
    list: Seq<Revocation>,
    plugins: Seq<Plugin<I, E>>,
    hashed: Seq<Option<Result<DirectoryDigest, String>>>,
    n: int,
)
    requires
        0 <= n <= plugins.len(),
    ensures
        kept_but(list, plugins, hashed, 0, n) == plugins.subrange(0, n),
    decreases n,
{
    if n > 0 {
        gone_none_upto(list, plugins, hashed, n - 1);
        assert(plugins.subrange(0, n) =~= plugins.subrange(0, n - 1).push(plugins[n - 1]));
    } else {
        assert(plugins.subrange(0, n) =~= Seq::empty());
    }
}

proof fn kept_all<I, E>(
    list: Seq<Revocation>,
    plugins: Seq<Plugin<I, E>>,
    hashed: Seq<Option<Result<DirectoryDigest, String>>>,
    k: int,
    n: int,
)
    requires
        k >= unloaded_upto(list, plugins, hashed, n).len(),
    ensures
        kept_but(list, plugins, hashed, k, n) == kept_upto(list, plugins, hashed, n),
    decreases n,
{
    if n > 0 {
        kept_all(list, plugins, hashed, k, n - 1);
    }
}

/// Removing the next plugin that is unloaded, by its name, takes out that plugin alone.
proof fn remove_next<I, E>(
    list: Seq<Revocation>,
    plugins: Seq<Plugin<I, E>>,
    hashed: Seq<Option<Result<DirectoryDigest, String>>>,
    k: int,
    n: int,
)
    requires
        0 <= n <= plugins.len(),
        0 <= k < unloaded_upto(list, plugins, hashed, n).len(),
        plugin_names(plugins).no_duplicates(),
    ensures
        ({
            let name = unloaded_upto(list, plugins, hashed, n)[k].name;
            let before = kept_but(list, plugins, hashed, k, n);
            let at = place_in(plugin_names(before), name);
            &&& plugin_names(before).contains(name)
            &&& kept_but(list, plugins, hashed, k + 1, n) == before.remove(at)
        }),
{
    let name = unloaded_upto(list, plugins, hashed, n)[k].name;
    let before = kept_but(list, plugins, hashed, k, n);
    remove_next_upto(list, plugins, hashed, k, n);
    let at = choose|at: int|
        0 <= at < before.len() && (#[trigger] before[at]).manifest.name@ == name && kept_but(
            list,
            plugins,
            hashed,
            k + 1,
            n,
        ) == before.remove(at);
    assert(plugin_names(before)[at] == name);
    kept_distinct(list, plugins, hashed, k, n);
    let p = place_in(plugin_names(before), name);
    assert(plugin_names(before)[p] == plugin_names(before)[at]);
    assert(p == at);
}

proof fn remove_next_upto<I, E>(
    list: Seq<Revocation>,
    plugins: Seq<Plugin<I, E>>,
    hashed: Seq<Option<Result<DirectoryDigest, String>>>,
    k: int,
    n: int,
)
    requires
        0 <= n <= plugins.len(),
        0 <= k < unloaded_upto(list, plugins, hashed, n).len(),
    ensures
        ({
            let name = unloaded_upto(list, plugins, hashed, n)[k].name;
            let before = kept_but(list, plugins, hashed, k, n);
            exists|at: int|
                0 <= at < before.len() && (#[trigger] before[at]).manifest.name@ == name && kept_but(
                    list,
                    plugins,
                    hashed,
                    k + 1,
                    n,
                ) == before.remove(at)
        }),
    decreases n,
{
    let less = unloaded_upto(list, plugins, hashed, n - 1);
    let here = unloaded_upto(list, plugins, hashed, n);
    let name = here[k].name;
    let before = kept_but(list, plugins, hashed, k, n);
    let after = kept_but(list, plugins, hashed, k + 1, n);
    let before_less = kept_but(list, plugins, hashed, k, n - 1);
    let after_less = kept_but(list, plugins, hashed, k + 1, n - 1);
    let plugin = plugins[n - 1];
    if k < less.len() {
        assert(here[k] == less[k]);
        remove_next_upto(list, plugins, hashed, k, n - 1);
        let at = choose|at: int|
            0 <= at < before_less.len() && (#[trigger] before_less[at]).manifest.name@ == name
                && after_less == before_less.remove(at);
        // From here on nothing of the first `k + 1` is left to be passed over.
        assert(before == before_less.push(plugin));
        assert(after == after_less.push(plugin));
        assert(before[at] == before_less[at]);
        assert(after =~= before.remove(at));
    } else {
        // This plugin is the one.
        assert(k == less.len());
        kept_same(list, plugins, hashed, k, n - 1);
        assert(before == before_less.push(plugin));
        assert(after == after_less);
        let at = before_less.len() as int;
        assert(before[at].manifest.name@ == name);
        assert(after =~= before.remove(at));
    }
}

/// Passing over one more than there are changes nothing.
proof fn kept_same<I, E>(
    list: Seq<Revocation>,
    plugins: Seq<Plugin<I, E>>,
    hashed: Seq<Option<Result<DirectoryDigest, String>>>,
    k: int,
    n: int,
)
    requires
        k >= unloaded_upto(list, plugins, hashed, n).len(),
    ensures
        kept_but(list, plugins, hashed, k, n) == kept_but(list, plugins, hashed, k + 1, n),
    decreases n,
{
    if n > 0 {
        kept_same(list, plugins, hashed, k, n - 1);
    }
}

proof fn kept_distinct<I, E>(
    list: Seq<Revocation>,
    plugins: Seq<Plugin<I, E>>,
    hashed: Seq<Option<Result<DirectoryDigest, String>>>,
    k: int,
    n: int,
)
    requires
        0 <= n <= plugins.len(),
        plugin_names(plugins).no_duplicates(),
    ensures
        plugin_names(kept_but(list, plugins, hashed, k, n)).no_duplicates(),
        forall|i: int|
            0 <= i < kept_but(list, plugins, hashed, k, n).len() ==> plugin_names(plugins).subrange(
                0,
                n,
            ).contains((#[trigger] kept_but(list, plugins, hashed, k, n)[i]).manifest.name@),
    decreases n,
{
    let here = kept_but(list, plugins, hashed, k, n);
    if n > 0 {
        kept_distinct(list, plugins, hashed, k, n - 1);
        let less = kept_but(list, plugins, hashed, k, n - 1);
        let all = plugin_names(plugins);
        let name = plugins[n - 1].manifest.name@;
        assert(all[n - 1] == name);
        assert(all.subrange(0, n)[n - 1] == name);
        assert forall|i: int| 0 <= i < less.len() implies all.subrange(0, n).contains(
            (#[trigger] less[i]).manifest.name@,
        ) && less[i].manifest.name@ != name by {
            let front = all.subrange(0, n - 1);
            let sought = less[i].manifest.name@;
            assert(front.contains(sought));
            let j = choose|j: int| 0 <= j < front.len() && front[j] == sought;
            assert(all.subrange(0, n)[j] == less[i].manifest.name@);
            assert(all[j] != all[n - 1]);
        }
        assert forall|a: int, b: int|
            0 <= a < plugin_names(here).len() && 0 <= b < plugin_names(here).len() && a
                != b implies plugin_names(here)[a] != plugin_names(here)[b] by {
            if a < less.len() && b < less.len() {
                assert(plugin_names(less)[a] != plugin_names(less)[b]);
            }
        }
    }
}

/// A plugin that is admitted is trusted as far as the host asked: it is signed where
/// signatures are required, no revocation names it or its signer, and under a lockfile it is
/// the pinned build.
pub proof fn admitted_is_trusted<I, E>(
    registry: Registry<I, E>,
    manifest: Manifest,
    build: Option<Seq<char>>,
    verdict: Option<Result<Signer, VerifyError>>,
)
    requires
        admitted(registry, manifest, build, verdict) is Ok,
    ensures
        registry.require_signatures ==> (verdict matches Some(Ok(_))),
        refused(
            registry.revocations,
            build,
            admitted(registry, manifest, build, verdict)->Ok_0,
        ) is None,
        registry.lockfile is Some && build is Some ==> {
            let pin = registry.lockfile->0.pinned(manifest.name@);
            &&& pin is Some
            &&& text::lower(lock::bare_hex(pin->0.digest)) == text::lower(build->0)
        },
{
    if registry.lockfile is Some && build is Some {
        let lockfile = registry.lockfile->0;
        lock::accepted_is_pinned(
            manifest.name@,
            lockfile.pinned(manifest.name@),
            manifest.published(),
            build->0,
            admitted(registry, manifest, build, verdict)->Ok_0,
        );
    }
}

/// Without anything configured that could refuse it, every plugin is admitted, unsigned.
pub proof fn unconfigured_admits_all<I, E>(registry: Registry<I, E>, manifest: Manifest)
    requires
        !needs_digest(registry),
        !registry.require_signatures,
    ensures
        admitted(registry, manifest, None, None) == Ok::<SignerModel, Why>(None),
{
    if registry.revocations is Some {
        let list = registry.revocations->0@;
        assert(list.len() == 0);
    }
}

/// A plugin that stays loaded under a new list is one the list does not refuse.
pub proof fn kept_is_not_revoked<I, E>(
    list: Seq<Revocation>,
    plugins: Seq<Plugin<I, E>>,
    hashed: Seq<Option<Result<DirectoryDigest, String>>>,
    n: int,
    plugin: Plugin<I, E>,
)
    requires
        0 <= n <= plugins.len(),
        kept_upto(list, plugins, hashed, n).contains(plugin),
    ensures
        exists|i: int|
            0 <= i < n && #[trigger] plugins[i] == plugin && unloaded_for(
                list,
                plugin.digest,
                hashed[i],
                plugin.signer@,
            ) is None,
    decreases n,
{
    if n > 0 {
        let less = kept_upto(list, plugins, hashed, n - 1);
        let here = kept_upto(list, plugins, hashed, n);
        let k = choose|k: int| 0 <= k < here.len() && here[k] == plugin;
        if k < less.len() {
            assert(less[k] == plugin);
            kept_is_not_revoked(list, plugins, hashed, n - 1, plugin);
        } else {
            assert(plugins[n - 1] == plugin);
        }
    }
}

} // verus!
