//! What holds of revocations, signatures and pins, in terms of what they name.

use crate::failure::{FailureReason, Failed, Why};
use crate::install::{staged_pin, StagedModel};
use crate::lock::{
    bare_hex, first_bad_digest, is_sha256, normalized, pin_fault, LockFault, LockedPlugin, Pin,
};
use crate::manifest::Manifest;
use crate::registry::{Plugin, Registry};
use crate::signature::{
    covers_listing, first_nameless, identity_of, layout, may_vouch, refusal, refusal_from, sha256_of,
    signer_text, DirectoryDigest, Revocation, Signer, SignerModel, VerifyError,
};
use crate::text;
use crate::text_laws::{hexadecimal_tells_bytes_apart, what_follows_a_prefix};
use crate::trust::{
    admission_view, admitted, heard, kept_upto, names_builds, needs_digest, ruled_on, signer_for,
    unloaded_for, unloaded_upto, Listing,
};
use vstd::prelude::*;
use vstd::string::*;

verus! {

/// Whether an entry of a revocation list names a build, by its digits: their case does not count,
/// nor white space around them.
pub open spec fn is_on_the_build(entry: Revocation, fingerprint: Seq<char>) -> bool {
    entry.digest matches Some(digits) && text::lower(text::trimmed(digits@)) == text::lower(
        fingerprint,
    )
}

/// Whether an entry of a revocation list names who signed a plugin.
pub open spec fn is_on_the_signer(entry: Revocation, signer: SignerModel) -> bool {
    entry.identity matches Some(who) && (signer matches Some((identity, _)) && who@ == identity)
}

/// Whether an entry of a revocation list names a build or its signer.
pub open spec fn is_on(entry: Revocation, build: Option<Seq<char>>, signer: SignerModel) -> bool {
    (build matches Some(fingerprint) && is_on_the_build(entry, fingerprint)) || is_on_the_signer(
        entry,
        signer,
    )
}

/// Whether a list names a build or its signer.
pub open spec fn is_listed(
    list: Seq<Revocation>,
    build: Option<Seq<char>>,
    signer: SignerModel,
) -> bool {
    exists|i: int| 0 <= i < list.len() && is_on(#[trigger] list[i], build, signer)
}

/// What an entry says of a build or a signer it names.
pub open spec fn said_of(
    entry: Revocation,
    build: Option<Seq<char>>,
    signer: SignerModel,
    said: Seq<char>,
) -> bool {
    let what = match (build, signer) {
        (Some(fingerprint), _) if is_on_the_build(entry, fingerprint) => "this build"@,
        (_, Some((identity, _))) => "signer `"@ + identity + "`"@,
        _ => Seq::empty(),
    };
    match entry.reason {
        Some(reason) => said == what + " is revoked: "@ + reason@,
        None => said == what + " is revoked"@,
    }
}

proof fn listed_from(
    list: Seq<Revocation>,
    build: Option<Seq<char>>,
    signer: SignerModel,
    from: int,
)
    requires
        0 <= from <= list.len(),
        forall|j: int| 0 <= j < from ==> !is_on(#[trigger] list[j], build, signer),
    ensures
        match refusal_from(list, build, identity_of(signer), from) {
            None => !is_listed(list, build, signer),
            Some(said) => exists|i: int|
                {
                    &&& 0 <= i < list.len()
                    &&& is_on(#[trigger] list[i], build, signer)
                    &&& said_of(list[i], build, signer, said)
                    &&& forall|j: int| 0 <= j < i ==> !is_on(#[trigger] list[j], build, signer)
                },
        },
    decreases list.len() - from,
{
    if from < list.len() {
        if is_on(list[from], build, signer) {
            assert(said_of(
                list[from],
                build,
                signer,
                refusal_from(list, build, identity_of(signer), from)->0,
            ));
        } else {
            listed_from(list, build, signer, from + 1);
        }
    }
}

/// A list refuses exactly what one of its entries names, by its build or by its signer, each
/// enough by itself; and what it says is what the first such entry says.
pub proof fn refused_by_build_or_by_signer(
    list: Seq<Revocation>,
    build: Option<Seq<char>>,
    signer: SignerModel,
)
    ensures
        match refusal(list, build, identity_of(signer)) {
            None => !is_listed(list, build, signer),
            Some(said) => exists|i: int|
                {
                    &&& 0 <= i < list.len()
                    &&& is_on(#[trigger] list[i], build, signer)
                    &&& said_of(list[i], build, signer, said)
                    &&& forall|j: int| 0 <= j < i ==> !is_on(#[trigger] list[j], build, signer)
                },
        },
        is_listed(list, build, signer) <==> refusal(list, build, identity_of(signer)) is Some,
{
    listed_from(list, build, signer, 0);
}

/// Whether a fingerprint is that of a loaded plugin: of the digest it was loaded with, or else of
/// its directory as it stands.
pub open spec fn is_fingerprint_of(
    fingerprint: Seq<char>,
    digest: Option<DirectoryDigest>,
    hashed: Option<Result<DirectoryDigest, String>>,
) -> bool {
    match digest {
        Some(recorded) => fingerprint == recorded.fingerprint(),
        None => hashed matches Some(Ok(found)) && fingerprint == found.fingerprint(),
    }
}

/// Whether a list has nothing on a loaded plugin: no entry names its signer, and none its build.
pub open spec fn is_clear(
    list: Seq<Revocation>,
    digest: Option<DirectoryDigest>,
    hashed: Option<Result<DirectoryDigest, String>>,
    signer: SignerModel,
) -> bool {
    &&& forall|i: int| 0 <= i < list.len() ==> !is_on_the_signer(#[trigger] list[i], signer)
    &&& forall|i: int, fingerprint: Seq<char>|
        0 <= i < list.len() && #[trigger] is_fingerprint_of(fingerprint, digest, hashed)
            ==> !is_on_the_build(#[trigger] list[i], fingerprint)
}

/// Whether some entry of a list is on a build.
pub open spec fn asks_for_builds(list: Seq<Revocation>) -> bool {
    exists|i: int| 0 <= i < list.len() && (#[trigger] list[i]).digest is Some
}

/// Whether what is told of an unloaded plugin is true of it: that its directory could not be
/// read, where that had to be, or what an entry that names it says.
pub open spec fn tells_why(
    list: Seq<Revocation>,
    digest: Option<DirectoryDigest>,
    hashed: Option<Result<DirectoryDigest, String>>,
    signer: SignerModel,
    why: Why,
) -> bool {
    match why {
        Why::Io(source) => cannot_be_told(list, digest, hashed) && (hashed matches Some(Err(said))
            && said@ == source),
        Why::Revoked(said) => exists|i: int, build: Option<Seq<char>>|
            {
                &&& 0 <= i < list.len()
                &&& #[trigger] is_on(list[i], build, signer)
                &&& build matches Some(fingerprint) ==> is_fingerprint_of(
                    fingerprint,
                    digest,
                    hashed,
                )
                &&& said_of(list[i], build, signer, said)
            },
        _ => false,
    }
}

/// Whether a list asks for the build of a plugin that was loaded without a digest, and its
/// directory could not be read.
pub open spec fn cannot_be_told(
    list: Seq<Revocation>,
    digest: Option<DirectoryDigest>,
    hashed: Option<Result<DirectoryDigest, String>>,
) -> bool {
    digest is None && (hashed matches Some(Err(_))) && asks_for_builds(list)
}

/// A loaded plugin stays loaded under a new list exactly when the list has nothing on it: not on
/// its signer, whether or not its build is known, and not on its build; and when that can be told.
pub proof fn stays_loaded_only_when_clear(
    list: Seq<Revocation>,
    digest: Option<DirectoryDigest>,
    hashed: Option<Result<DirectoryDigest, String>>,
    signer: SignerModel,
)
    requires
        digest is None && asks_for_builds(list) ==> hashed is Some,
    ensures
        unloaded_for(list, digest, hashed, signer) is None <==> is_clear(
            list,
            digest,
            hashed,
            signer,
        ) && !cannot_be_told(list, digest, hashed),
        unloaded_for(list, digest, hashed, signer) matches Some(why) ==> tells_why(
            list,
            digest,
            hashed,
            signer,
            why,
        ),
{
    let named = names_builds(list);
    let build = match (digest, named, hashed) {
        (Some(digest), _, _) => Some(digest.fingerprint()),
        (None, true, Some(Ok(digest))) => Some(digest.fingerprint()),
        _ => None,
    };
    refused_by_build_or_by_signer(list, build, signer);
    if unloaded_for(list, digest, hashed, signer) matches Some(Why::Revoked(_)) {
        let said = refusal(list, build, identity_of(signer))->0;
        let i = choose|i: int|
            {
                &&& 0 <= i < list.len()
                &&& is_on(#[trigger] list[i], build, signer)
                &&& said_of(list[i], build, signer, said)
            };
        assert(is_on(list[i], build, signer));
    }
    if is_clear(list, digest, hashed, signer) && is_listed(list, build, signer) {
        let i = choose|i: int| 0 <= i < list.len() && is_on(#[trigger] list[i], build, signer);
        assert(!is_on_the_signer(list[i], signer));
        assert(is_fingerprint_of(build->0, digest, hashed));
        assert(!is_on_the_build(list[i], build->0));
    }
    if !is_listed(list, build, signer) {
        assert forall|i: int| 0 <= i < list.len() implies !is_on_the_signer(
            #[trigger] list[i],
            signer,
        ) by {
            assert(!is_on(list[i], build, signer));
        }
        assert forall|i: int, fingerprint: Seq<char>|
            0 <= i < list.len() && #[trigger] is_fingerprint_of(
                fingerprint,
                digest,
                hashed,
            ) implies !is_on_the_build(#[trigger] list[i], fingerprint) by {
            assert(!is_on(list[i], build, signer));
            if is_on_the_build(list[i], fingerprint) {
                assert(list[i].digest is Some);
                assert(named);
            }
        }
    }
}

/// Whether a plugin of a registry stays loaded under a new list.
pub open spec fn is_kept<I, E>(
    list: Seq<Revocation>,
    plugins: Seq<Plugin<I, E>>,
    hashed: Seq<Option<Result<DirectoryDigest, String>>>,
    i: int,
) -> bool {
    is_clear(list, plugins[i].digest, hashed[i], plugins[i].signer@) && !cannot_be_told(
        list,
        plugins[i].digest,
        hashed[i],
    )
}

/// Whether a failure is that of a plugin that a new list unloads: its name, where it stands, and a
/// true reason.
pub open spec fn is_told_of<I, E>(
    list: Seq<Revocation>,
    plugin: Plugin<I, E>,
    hashed: Option<Result<DirectoryDigest, String>>,
    failure: Failed,
) -> bool {
    &&& failure.name == plugin.manifest.name@
    &&& failure.dir == plugin.manifest.dir@
    &&& tells_why(list, plugin.digest, hashed, plugin.signer@, failure.reason)
}

/// Whether a failure is that of one of the first `n` plugins that a new list unloads.
pub open spec fn is_of_an_unloaded<I, E>(
    list: Seq<Revocation>,
    plugins: Seq<Plugin<I, E>>,
    hashed: Seq<Option<Result<DirectoryDigest, String>>>,
    n: int,
    failure: Failed,
) -> bool {
    exists|i: int|
        0 <= i < n && !is_kept(list, plugins, hashed, i) && is_told_of(
            list,
            #[trigger] plugins[i],
            hashed[i],
            failure,
        )
}

/// Whether a plugin is one that stays loaded under a new list.
pub open spec fn stays<I, E>(
    list: Seq<Revocation>,
    plugins: Seq<Plugin<I, E>>,
    hashed: Seq<Option<Result<DirectoryDigest, String>>>,
    plugin: Plugin<I, E>,
) -> bool {
    exists|i: int|
        0 <= i < plugins.len() && #[trigger] plugins[i] == plugin && is_kept(
            list,
            plugins,
            hashed,
            i,
        )
}

/// Whether some failure is that of a plugin that a new list unloads.
pub open spec fn is_reported<I, E>(
    list: Seq<Revocation>,
    plugin: Plugin<I, E>,
    hashed: Option<Result<DirectoryDigest, String>>,
    failures: Seq<Failed>,
) -> bool {
    exists|f: int|
        0 <= f < failures.len() && is_told_of(list, plugin, hashed, #[trigger] failures[f])
}

proof fn sorted_upto<I, E>(
    list: Seq<Revocation>,
    plugins: Seq<Plugin<I, E>>,
    hashed: Seq<Option<Result<DirectoryDigest, String>>>,
    n: int,
)
    requires
        0 <= n <= plugins.len(),
        hashed.len() == plugins.len(),
        forall|i: int|
            0 <= i < plugins.len() && asks_for_builds(list) && (#[trigger] plugins[i]).digest is None
                ==> hashed[i] is Some,
    ensures
        kept_upto(list, plugins, hashed, n).len() + unloaded_upto(list, plugins, hashed, n).len()
            == n,
        forall|i: int|
            0 <= i < n && is_kept(list, plugins, hashed, i) ==> kept_upto(
                list,
                plugins,
                hashed,
                n,
            ).contains(#[trigger] plugins[i]),
        forall|i: int|
            0 <= i < n && !is_kept(list, plugins, hashed, i) ==> is_reported(
                list,
                #[trigger] plugins[i],
                hashed[i],
                unloaded_upto(list, plugins, hashed, n),
            ),
        forall|k: int|
            0 <= k < kept_upto(list, plugins, hashed, n).len() ==> exists|i: int|
                0 <= i < n && plugins[i] == #[trigger] kept_upto(list, plugins, hashed, n)[k]
                    && is_kept(list, plugins, hashed, i),
        forall|f: int|
            0 <= f < unloaded_upto(list, plugins, hashed, n).len() ==> is_of_an_unloaded(
                list,
                plugins,
                hashed,
                n,
                #[trigger] unloaded_upto(list, plugins, hashed, n)[f],
            ),
    decreases n,
{
    if n > 0 {
        sorted_upto(list, plugins, hashed, n - 1);
        let plugin = plugins[n - 1];
        stays_loaded_only_when_clear(list, plugin.digest, hashed[n - 1], plugin.signer@);
        let kept_less = kept_upto(list, plugins, hashed, n - 1);
        let kept_here = kept_upto(list, plugins, hashed, n);
        let gone_less = unloaded_upto(list, plugins, hashed, n - 1);
        let gone_here = unloaded_upto(list, plugins, hashed, n);
        assert forall|i: int| 0 <= i < n && is_kept(list, plugins, hashed, i) implies kept_here.contains(
            #[trigger] plugins[i],
        ) by {
            if i < n - 1 {
                let k = choose|k: int| 0 <= k < kept_less.len() && kept_less[k] == plugins[i];
                assert(kept_here[k] == plugins[i]);
            } else {
                assert(kept_here[kept_here.len() - 1] == plugins[i]);
            }
        }
        assert forall|i: int| 0 <= i < n && !is_kept(list, plugins, hashed, i) implies is_reported(
            list,
            #[trigger] plugins[i],
            hashed[i],
            gone_here,
        ) by {
            if i < n - 1 {
                let f = choose|f: int|
                    0 <= f < gone_less.len() && is_told_of(
                        list,
                        plugins[i],
                        hashed[i],
                        #[trigger] gone_less[f],
                    );
                assert(gone_here[f] == gone_less[f]);
            } else {
                let f = gone_here.len() - 1;
                assert(is_told_of(list, plugins[i], hashed[i], gone_here[f]));
            }
        }
        assert forall|k: int| 0 <= k < kept_here.len() implies exists|i: int|
            0 <= i < n && plugins[i] == #[trigger] kept_here[k] && is_kept(list, plugins, hashed, i) by {
            if k < kept_less.len() {
                assert(kept_here[k] == kept_less[k]);
                let i = choose|i: int|
                    0 <= i < n - 1 && plugins[i] == kept_less[k] && is_kept(
                        list,
                        plugins,
                        hashed,
                        i,
                    );
                assert(plugins[i] == kept_here[k]);
            } else {
                assert(plugins[n - 1] == kept_here[k]);
            }
        }
        assert forall|f: int| 0 <= f < gone_here.len() implies is_of_an_unloaded(
            list,
            plugins,
            hashed,
            n,
            #[trigger] gone_here[f],
        ) by {
            if f < gone_less.len() {
                assert(gone_here[f] == gone_less[f]);
                let i = choose|i: int|
                    0 <= i < n - 1 && !is_kept(list, plugins, hashed, i) && is_told_of(
                        list,
                        #[trigger] plugins[i],
                        hashed[i],
                        gone_less[f],
                    );
                assert(is_told_of(list, plugins[i], hashed[i], gone_here[f]));
            } else {
                assert(is_told_of(list, plugins[n - 1], hashed[n - 1], gone_here[f]));
            }
        }
    }
}

/// Applying a list sorts the loaded plugins in two: those that the list has nothing on stay, as
/// they are, and every other is unloaded and reported. None is both, and none is lost.
pub proof fn a_new_list_unloads_whom_it_names<I, E>(
    list: Seq<Revocation>,
    plugins: Seq<Plugin<I, E>>,
    hashed: Seq<Option<Result<DirectoryDigest, String>>>,
)
    requires
        hashed.len() == plugins.len(),
        forall|i: int|
            0 <= i < plugins.len() && asks_for_builds(list) && (#[trigger] plugins[i]).digest is None
                ==> hashed[i] is Some,
    ensures
        ({
            let kept = kept_upto(list, plugins, hashed, plugins.len() as int);
            let gone = unloaded_upto(list, plugins, hashed, plugins.len() as int);
            &&& kept.len() + gone.len() == plugins.len()
            &&& forall|i: int|
                0 <= i < plugins.len() && is_kept(list, plugins, hashed, i) ==> kept.contains(
                    #[trigger] plugins[i],
                )
            &&& forall|i: int|
                0 <= i < plugins.len() && !is_kept(list, plugins, hashed, i) ==> is_reported(
                    list,
                    #[trigger] plugins[i],
                    hashed[i],
                    gone,
                )
            &&& forall|k: int|
                0 <= k < kept.len() ==> stays(list, plugins, hashed, #[trigger] kept[k])
            &&& forall|f: int|
                0 <= f < gone.len() ==> is_of_an_unloaded(
                    list,
                    plugins,
                    hashed,
                    plugins.len() as int,
                    #[trigger] gone[f],
                )
        }),
{
    sorted_upto(list, plugins, hashed, plugins.len() as int);
    let kept = kept_upto(list, plugins, hashed, plugins.len() as int);
    assert forall|k: int| 0 <= k < kept.len() implies stays(
        list,
        plugins,
        hashed,
        #[trigger] kept[k],
    ) by {
        let i = choose|i: int|
            0 <= i < plugins.len() && plugins[i] == kept[k] && is_kept(list, plugins, hashed, i);
        assert(plugins[i] == kept[k]);
    }
}

/// Who signed a plugin is who the verifier says, and no one else: without a verdict, or with one
/// that there is no signature, it is unsigned, and only where signatures are not required; any
/// other failure to verify refuses it.
pub proof fn a_signer_is_whom_the_verifier_names(
    verdict: Option<Result<Signer, VerifyError>>,
    required: bool,
)
    ensures
        match signer_for(verdict, required) {
            Ok(Some(who)) => verdict matches Some(Ok(signer)) && signer@ == Some(who),
            Ok(None) => (verdict matches Some(Ok(signer)) && signer@ is None) || (!required && (
            verdict is None || verdict matches Some(Err(VerifyError::Missing)))),
            Err(why) => match verdict {
                Some(Ok(_)) => false,
                None => required && why is Unsigned,
                Some(Err(VerifyError::Missing)) => required && why is Unsigned,
                Some(Err(VerifyError::Untrusted(_))) => why is UntrustedSigner,
                Some(Err(VerifyError::Invalid(_))) => why is SignatureInvalid,
                Some(Err(VerifyError::Io(source))) => why matches Why::Io(said) && said == source@,
            },
        },
{
}

/// Whether a pin accepts a build: the bytes are those pinned, and the signer, the issuer and the
/// version are those that the pin names, where it names them.
pub open spec fn pin_accepts(
    pin: Pin,
    published: Seq<char>,
    fingerprint: Seq<char>,
    signer: SignerModel,
) -> bool {
    &&& text::lower(bare_hex(pin.digest)) == text::lower(fingerprint)
    &&& pin.signer matches Some(who) ==> (signer matches Some((identity, _)) && identity == who)
    &&& pin.issuer matches Some(via) ==> (signer matches Some((_, Some(issuer))) && issuer == via)
    &&& pin.version matches Some(version) ==> version == published
}

/// A lockfile accepts exactly what its pin accepts, and nothing without a pin; what it says
/// otherwise is what differs, the bytes before the signer, the signer before its issuer, and the
/// version last.
pub proof fn a_pin_accepts_only_what_it_names(
    name: Seq<char>,
    pin: Option<Pin>,
    published: Seq<char>,
    fingerprint: Seq<char>,
    signer: SignerModel,
)
    ensures
        pin_fault(name, pin, published, fingerprint, signer) is None <==> (pin matches Some(held)
            && pin_accepts(held, published, fingerprint, signer)),
        match pin_fault(name, pin, published, fingerprint, signer) {
            None => true,
            Some(LockFault::Unlocked(said)) => pin is None && said == name,
            Some(LockFault::DigestMismatch { name: said, expected, found }) => {
                &&& said == name
                &&& pin matches Some(held)
                &&& expected == held.digest
                &&& found == "sha256:"@ + fingerprint
                &&& text::lower(bare_hex(held.digest)) != text::lower(fingerprint)
            },
            Some(LockFault::SignerMismatch { name: said, expected, found }) => {
                &&& said == name
                &&& pin matches Some(held)
                &&& text::lower(bare_hex(held.digest)) == text::lower(fingerprint)
                &&& ({
                    ||| held.signer == Some(expected) && !(signer matches Some((identity, _))
                        && identity == expected)
                    ||| held.issuer == Some(expected) && !(signer matches Some((_, Some(issuer)))
                        && issuer == expected)
                })
            },
            Some(LockFault::VersionMismatch { name: said, expected, found }) => {
                &&& said == name
                &&& pin matches Some(held)
                &&& held.version == Some(expected)
                &&& expected != published
                &&& found == published
                &&& pin_accepts(Pin { version: None, ..held }, published, fingerprint, signer)
            },
            Some(_) => false,
        },
{
}

/// What is admitted has earned it on every count at once: who signed it is whom the verifier
/// names, no entry of the revocations names it or its signer, and its pin accepts it. What is
/// refused has failed on one.
pub proof fn admission_is_earned<I, E>(
    registry: Registry<I, E>,
    manifest: Manifest,
    build: Option<Seq<char>>,
    verdict: Option<Result<Signer, VerifyError>>,
)
    ensures
        admitted(registry, manifest, build, verdict) is Ok <==> {
            &&& signer_for(verdict, registry.require_signatures) is Ok
            &&& registry.revocations matches Some(list) ==> !is_listed(
                list@,
                build,
                signer_for(verdict, registry.require_signatures)->Ok_0,
            )
            &&& registry.lockfile is Some && build is Some ==> {
                let pin = registry.lockfile->0.pinned(manifest.name@);
                pin is Some && pin_accepts(
                    pin->0,
                    manifest.published(),
                    build->0,
                    signer_for(verdict, registry.require_signatures)->Ok_0,
                )
            }
        },
        admitted(registry, manifest, build, verdict) matches Ok(signer) ==> signer_for(
            verdict,
            registry.require_signatures,
        ) == Ok::<SignerModel, Why>(signer),
        admitted(registry, manifest, build, verdict) matches Err(why) ==> match why {
            Why::Revoked(_) => registry.revocations is Some,
            Why::Lock(_) => registry.lockfile is Some,
            _ => signer_for(verdict, registry.require_signatures) == Err::<SignerModel, Why>(why),
        },
{
    match signer_for(verdict, registry.require_signatures) {
        Ok(signer) => {
            match registry.revocations {
                Some(list) => refused_by_build_or_by_signer(list@, build, signer),
                None => {},
            }
            if registry.lockfile is Some && build is Some {
                a_pin_accepts_only_what_it_names(
                    manifest.name@,
                    registry.lockfile->0.pinned(manifest.name@),
                    manifest.published(),
                    build->0,
                    signer,
                );
            }
        },
        Err(_) => {},
    }
}

/// What a registry lets load is trusted on every count that it was set to: where signatures are
/// required its verifier vouched for the signer; where it has one, no signer stands without the
/// verifier's word; no revocation names the files that are loaded or their signer; and a lockfile
/// pins those files.
pub proof fn what_loads_is_trusted<I, E>(
    registry: Registry<I, E>,
    manifest: Manifest,
    listing: Listing,
    signer: Signer,
    digest: Option<DirectoryDigest>,
)
    requires
        ruled_on(registry, manifest, listing, Ok((signer, digest))),
    ensures
        registry.require_signatures || signer@ is Some ==> exists|ruling: Signer|
            {
                &&& registry.verifier is Some
                &&& digest is Some
                &&& #[trigger] may_vouch(
                    &registry.verifier->0,
                    digest->0,
                    manifest.dir@,
                    Ok(ruling),
                )
                &&& ruling@ == signer@
            },
        registry.revocations matches Some(list) ==> (list@.len() > 0 ==> digest is Some)
            && !is_listed(
            list@,
            match digest {
                Some(digest) => Some(digest.fingerprint()),
                None => None,
            },
            signer@,
        ),
        registry.lockfile matches Some(lockfile) ==> {
            &&& digest is Some
            &&& lockfile.pinned(manifest.name@) is Some
            &&& pin_accepts(
                lockfile.pinned(manifest.name@)->0,
                manifest.published(),
                digest->0.fingerprint(),
                signer@,
            )
        },
        digest matches Some(digest) ==> (listing matches Ok(files) && covers_listing(
            digest.covered(),
            files@,
        )),
{
    let r: Result<(Signer, Option<DirectoryDigest>), FailureReason> = Ok((signer, digest));
    only_the_unguarded_go_unhashed(registry);
    if !needs_digest(registry) {
        admission_is_earned(registry, manifest, None, None);
    } else {
        let (shown, verdict) = choose|
            shown: DirectoryDigest,
            verdict: Option<Result<Signer, VerifyError>>,
        |
            {
                &&& covers_listing(shown.covered(), listing->Ok_0@)
                &&& #[trigger] heard(registry, shown, manifest.dir@, verdict)
                &&& admission_view(r) == admitted(
                    registry,
                    manifest,
                    Some(shown.fingerprint()),
                    verdict,
                )
                &&& digest == Some(shown)
            };
        admission_is_earned(registry, manifest, Some(shown.fingerprint()), verdict);
        a_signer_is_whom_the_verifier_names(verdict, registry.require_signatures);
        if registry.require_signatures || signer@ is Some {
            let ruling = verdict->0->Ok_0;
            assert(may_vouch(&registry.verifier->0, digest->0, manifest.dir@, Ok(ruling)));
        }
    }
}

/// A digest is taken wherever something could be held against one: a verifier, a lockfile or a
/// revocation. So what is admitted without one had nothing to be held to.
pub proof fn only_the_unguarded_go_unhashed<I, E>(registry: Registry<I, E>)
    ensures
        needs_digest(registry) <==> {
            ||| registry.verifier is Some
            ||| registry.lockfile is Some
            ||| registry.revocations matches Some(list) && list@.len() > 0
        },
{
}

/// The pin of an installed plugin requires what its release names: the signer, the issuer, the
/// bytes that were verified and the version that was declared. So it refuses those bytes from any
/// other signer, or unsigned.
pub proof fn a_pin_requires_what_the_release_names(
    staged: StagedModel,
    published: Seq<char>,
    signer: SignerModel,
)
    ensures
        staged_pin(staged).signer == staged.release.signer,
        staged_pin(staged).issuer == staged.release.issuer,
        staged_pin(staged).source == staged.release.source,
        staged_pin(staged).version == Some(staged.manifest.published()),
        bare_hex(staged_pin(staged).digest) == staged.digest.fingerprint(),
        staged.release.signer is Some && !(signer matches Some((identity, _)) && Some(identity)
            == staged.release.signer) ==> pin_fault(
            staged.name,
            Some(staged_pin(staged)),
            published,
            staged.digest.fingerprint(),
            signer,
        ) matches Some(LockFault::SignerMismatch { .. }),
        staged.release.issuer is Some && !(signer matches Some((_, issuer)) && issuer
            == staged.release.issuer) ==> pin_fault(
            staged.name,
            Some(staged_pin(staged)),
            published,
            staged.digest.fingerprint(),
            signer,
        ) matches Some(LockFault::SignerMismatch { .. }),
        published != staged.manifest.published() ==> pin_fault(
            staged.name,
            Some(staged_pin(staged)),
            published,
            staged.digest.fingerprint(),
            signer,
        ) is Some,
{
    let root = crate::signature::sha256_of(crate::signature::layout(staged.digest.covered()));
    crate::lock::fingerprint_form(root);
}

/// The pin of an installed plugin refuses every other build.
pub proof fn a_pin_refuses_other_bytes(
    staged: StagedModel,
    published: Seq<char>,
    fingerprint: Seq<char>,
    signer: SignerModel,
)
    requires
        text::lower(fingerprint) != text::lower(staged.digest.fingerprint()),
    ensures
        pin_fault(staged.name, Some(staged_pin(staged)), published, fingerprint, signer) matches Some(
            LockFault::DigestMismatch { .. },
        ),
{
    let root = crate::signature::sha256_of(crate::signature::layout(staged.digest.covered()));
    crate::lock::fingerprint_form(root);
}

/// A digest may be written bare or with its kind, in either case and with space around it: what is
/// kept is the kind and the digits, in small letters.
pub proof fn a_digest_may_be_written_bare(digest: Seq<char>, digits: Seq<char>)
    ensures
        bare_hex(normalized(digest)) == text::lower(bare_hex(text::trimmed(digest))),
        normalized(digest) == "sha256:"@ + text::lower(bare_hex(text::trimmed(digest))),
        bare_hex("sha256:"@ + digits) == digits,
        text::after(digits, "sha256:"@) is None ==> bare_hex(digits) == digits,
{
    what_follows_a_prefix("sha256:"@ + digits, "sha256:"@, digits);
    let kept = text::lower(bare_hex(text::trimmed(digest)));
    what_follows_a_prefix("sha256:"@ + kept, "sha256:"@, kept);
}

/// A lockfile is refused at its first entry whose digest is none, and only then.
pub proof fn the_first_bad_digest_is_told(entries: Seq<(String, LockedPlugin)>, from: int)
    requires
        0 <= from <= entries.len(),
    ensures
        match first_bad_digest(entries, from) {
            Some(at) => {
                &&& from <= at < entries.len()
                &&& !is_sha256(bare_hex(normalized(entries[at].1.digest@)))
                &&& forall|i: int|
                    from <= i < at ==> is_sha256(
                        bare_hex(normalized((#[trigger] entries[i]).1.digest@)),
                    )
            },
            None => forall|i: int|
                from <= i < entries.len() ==> is_sha256(
                    bare_hex(normalized((#[trigger] entries[i]).1.digest@)),
                ),
        },
    decreases entries.len() - from,
{
    if from < entries.len() {
        the_first_bad_digest_is_told(entries, from + 1);
    }
}

/// A revocation list is refused at its first entry that names nothing, and only then.
pub proof fn the_first_nameless_entry_is_told(entries: Seq<Revocation>, from: int)
    requires
        0 <= from <= entries.len(),
    ensures
        match first_nameless(entries, from) {
            Some(at) => {
                &&& from <= at < entries.len()
                &&& entries[at].digest is None
                &&& entries[at].identity is None
                &&& forall|i: int|
                    from <= i < at ==> (#[trigger] entries[i]).digest is Some || entries[i].identity
                        is Some
            },
            None => forall|i: int|
                from <= i < entries.len() ==> (#[trigger] entries[i]).digest is Some
                    || entries[i].identity is Some,
        },
    decreases entries.len() - from,
{
    if from < entries.len() {
        the_first_nameless_entry_is_told(entries, from + 1);
    }
}

/// A fingerprint is the whole of a hash: digests with one fingerprint have one hash.
pub proof fn fingerprints_tell_hashes_apart(a: DirectoryDigest, b: DirectoryDigest)
    requires
        a.fingerprint() == b.fingerprint(),
    ensures
        sha256_of(layout(a.covered())) == sha256_of(layout(b.covered())),
        a.fingerprint().len() == 2 * sha256_of(layout(a.covered())).len(),
{
    hexadecimal_tells_bytes_apart(
        sha256_of(layout(a.covered())),
        sha256_of(layout(b.covered())),
    );
}

/// A signer is shown by its identity, and by its issuer where it has one; one that is shown as
/// unsigned is either unsigned or calls itself so.
pub proof fn a_signer_is_shown_as_it_is(signer: SignerModel)
    ensures
        match signer {
            None => signer_text(signer) == "unsigned"@,
            Some((identity, None)) => signer_text(signer) == identity,
            Some((identity, Some(issuer))) => text::begins(signer_text(signer), identity)
                && text::occurs(signer_text(signer), issuer),
        },
{
    match signer {
        Some((identity, Some(issuer))) => {
            let shown = signer_text(signer);
            assert(shown.subrange(0, identity.len() as int) =~= identity);
            let at = (identity + " (via "@).len() as int;
            assert(shown.subrange(at, at + issuer.len()) =~= issuer);
        },
        _ => {},
    }
}

} // verus!
