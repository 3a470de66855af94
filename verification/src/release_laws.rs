//! What holds of choosing, believing and fetching releases.

use crate::clock::parsed_time;
use crate::index::{
    best, best_upto, disbelief, document_fault, exact_from, newest_of, pin_of, release_fault_from,
    staleness, usable_name, Freshness, IndexError, IndexFault, PluginReleases, Release,
    ReleaseModel, INDEX_SCHEMA,
};
use crate::install::{
    chosen, manifest_fault, reference_of, settled_on, upgraded_to, InstallFault,
};
use crate::lock::{bare_hex, LockFault, Pin};
use crate::manifest::Manifest;
use crate::text;
use crate::version::{requirement_allows, version_order, Order};
use vstd::prelude::*;
use vstd::string::*;

verus! {

/// Whether a release may be picked for a requirement: it is not yanked, and the requirement allows
/// its version.
pub open spec fn may_be_picked(release: Release, requirement: Seq<char>) -> bool {
    &&& !release.yanked
    &&& requirement_allows(requirement, release.version@)
}

proof fn picked_upto(releases: Seq<Release>, requirement: Seq<char>, n: int)
    requires
        0 <= n <= releases.len(),
    ensures
        best_upto(releases, requirement, n) is None <==> forall|i: int|
            0 <= i < n ==> !may_be_picked(#[trigger] releases[i], requirement),
        best_upto(releases, requirement, n) matches Some(at) ==> {
            &&& 0 <= at < n
            &&& may_be_picked(releases[at], requirement)
            &&& forall|i: int|
                at < i < n && may_be_picked(#[trigger] releases[i], requirement) ==> version_order(
                    releases[at].version@,
                    releases[i].version@,
                ) == Order::Greater
        },
    decreases n,
{
    if n > 0 {
        picked_upto(releases, requirement, n - 1);
    }
}

/// A release is picked whenever one may be, and what is picked may be: never a yanked one, never
/// one that the requirement does not allow. Nothing listed after it that may be picked is as new.
pub proof fn what_is_picked_may_be(releases: Seq<Release>, requirement: Seq<char>)
    ensures
        best(releases, requirement) is None <==> forall|i: int|
            0 <= i < releases.len() ==> !may_be_picked(#[trigger] releases[i], requirement),
        best(releases, requirement) matches Some(at) ==> {
            &&& 0 <= at < releases.len()
            &&& may_be_picked(releases[at], requirement)
            &&& forall|i: int|
                at < i < releases.len() && may_be_picked(#[trigger] releases[i], requirement)
                    ==> version_order(releases[at].version@, releases[i].version@)
                    == Order::Greater
        },
{
    picked_upto(releases, requirement, releases.len() as int);
}

/// The newest release that may be picked is one of them, and each other one that may be is of the
/// same version or an earlier one.
pub proof fn the_newest_comes_after_all(
    releases: Seq<Release>,
    requirement: Seq<char>,
    picked: Release,
    i: int,
)
    requires
        newest_of(releases, requirement, picked),
        0 <= i < releases.len(),
        may_be_picked(releases[i], requirement),
    ensures
        may_be_picked(picked, requirement),
        releases.contains(picked),
        releases[i].version@ == picked.version@ || version_order(
            releases[i].version@,
            picked.version@,
        ) == Order::Less,
{
}

proof fn exactly_from(releases: Seq<Release>, version: Seq<char>, from: int)
    requires
        0 <= from <= releases.len(),
    ensures
        exact_from(releases, version, from) is None <==> forall|i: int|
            from <= i < releases.len() ==> (#[trigger] releases[i]).version@ != version,
        exact_from(releases, version, from) matches Some(at) ==> {
            &&& from <= at < releases.len()
            &&& releases[at].version@ == version
            &&& forall|i: int| from <= i < at ==> (#[trigger] releases[i]).version@ != version
        },
    decreases releases.len() - from,
{
    if from < releases.len() {
        exactly_from(releases, version, from + 1);
    }
}

/// Where a pin names a version, that version is installed, yanked or not and whatever was asked
/// for, or nothing is.
pub proof fn a_pinned_version_is_what_installs(
    document: PluginReleases,
    name: Seq<char>,
    requirement: Seq<char>,
    pin: Pin,
    version: Seq<char>,
)
    requires
        pin.version == Some(version),
    ensures
        match chosen(document, name, requirement, Some(pin)) {
            Ok(release) => {
                &&& release.version == version
                &&& exists|i: int|
                    0 <= i < document.releases@.len() && (#[trigger] document.releases@[i])@
                        == release
            },
            Err(fault) => {
                &&& fault == InstallFault::Index(
                    IndexFault::NoMatch { name, requirement: "="@ + version },
                )
                &&& forall|i: int|
                    0 <= i < document.releases@.len() ==> (
                    #[trigger] document.releases@[i]).version@ != version
            },
        },
{
    exactly_from(document.releases@, version, 0);
}

/// Where no version is pinned, what is installed was offered, is not yanked and is allowed; it
/// fails only where nothing is.
pub proof fn an_unpinned_install_takes_what_is_allowed(
    document: PluginReleases,
    name: Seq<char>,
    requirement: Seq<char>,
    pin: Option<Pin>,
)
    requires
        pin matches Some(held) ==> held.version is None,
    ensures
        match chosen(document, name, requirement, pin) {
            Ok(release) => {
                &&& !release.yanked
                &&& requirement_allows(requirement, release.version)
                &&& exists|i: int|
                    0 <= i < document.releases@.len() && (#[trigger] document.releases@[i])@
                        == release
            },
            Err(fault) => {
                &&& fault == InstallFault::Index(IndexFault::NoMatch { name, requirement })
                &&& forall|i: int|
                    0 <= i < document.releases@.len() ==> !may_be_picked(
                        #[trigger] document.releases@[i],
                        requirement,
                    )
            },
        },
        chosen(document, name, requirement, pin) == chosen(document, name, requirement, None),
{
    what_is_picked_may_be(document.releases@, requirement);
}

/// What an index refuses is told as it is; where it answers, an install takes what it chooses and
/// an upgrade takes the newest, whatever is pinned.
pub proof fn an_upgrade_looks_past_the_pin(
    answer: Result<PluginReleases, IndexError>,
    name: Seq<char>,
    requirement: Seq<char>,
    pin: Option<Pin>,
)
    ensures
        answer matches Err(error) ==> settled_on(answer, name, requirement, pin) == Err::<
            ReleaseModel,
            InstallFault,
        >(InstallFault::Index(error@)) && upgraded_to(answer, name, requirement) == Err::<
            ReleaseModel,
            InstallFault,
        >(InstallFault::Index(error@)),
        answer matches Ok(document) ==> settled_on(answer, name, requirement, pin) == chosen(
            document,
            name,
            requirement,
            pin,
        ) && upgraded_to(answer, name, requirement) == chosen(document, name, requirement, None),
{
}

/// A release is fetched from where the index says, and only where its digest is the pinned one;
/// one that differs is refused before anything is fetched.
pub proof fn nothing_is_fetched_against_its_pin(
    name: Seq<char>,
    release: ReleaseModel,
    pin: Option<Pin>,
)
    ensures
        reference_of(name, release, pin) matches Ok(reference) ==> {
            &&& release.source == Some(reference)
            &&& pin matches Some(held) ==> text::lower(bare_hex(held.digest)) == text::lower(
                bare_hex(release.digest),
            )
        },
        reference_of(name, release, pin) matches Err(fault) ==> match fault {
            InstallFault::Lock(LockFault::DigestMismatch { name: said, expected, found }) => {
                &&& said == name
                &&& pin matches Some(held)
                &&& expected == held.digest
                &&& found == release.digest
                &&& text::lower(bare_hex(expected)) != text::lower(bare_hex(found))
            },
            InstallFault::NoSource(said) => said == name && release.source is None,
            _ => false,
        },
{
}

/// A package is accepted exactly when the manifest in it declares the name that was asked for and
/// the version that was chosen.
pub proof fn a_package_is_what_was_asked_for(
    name: Seq<char>,
    release: ReleaseModel,
    manifest: Manifest,
)
    ensures
        manifest_fault(name, release, manifest) is None <==> manifest.name@ == name
            && manifest.published() == release.version,
        manifest.name@ != name ==> manifest_fault(name, release, manifest) == Some(
            "the package for `"@ + name + "` contains a plugin named `"@ + manifest.name@ + "`"@,
        ),
        manifest.name@ == name && manifest.published() != release.version ==> manifest_fault(
            name,
            release,
            manifest,
        ) == Some(
            "`"@ + name + "`: the index offers "@ + release.version + " but the package declares "@
                + manifest.published(),
        ),
{
}

/// The pin of a release requires what the release names, and nothing else.
pub proof fn a_release_is_pinned_as_it_is(release: ReleaseModel)
    ensures
        pin_of(release).version == Some(release.version),
        pin_of(release).signer == release.signer,
        pin_of(release).issuer == release.issuer,
        pin_of(release).source == release.source,
        pin_of(release).digest == crate::lock::normalized(release.digest),
{
}

/// A document is believed exactly up to its deadline. One without a deadline is believed where none
/// is required, one whose deadline cannot be read is not, and where freshness is ignored any is.
pub proof fn a_document_is_believed_up_to_its_deadline(
    freshness: Freshness,
    expires: Option<Seq<char>>,
    what: Seq<char>,
    now: i128,
)
    ensures
        staleness(freshness, expires, what, now) is None <==> {
            ||| freshness is Ignored
            ||| freshness is Lenient && expires is None
            ||| expires matches Some(written) && (parsed_time(written) matches Ok(deadline) && now
                <= deadline)
        },
        staleness(freshness, expires, what, now) matches Some(fault) ==> match fault {
            IndexFault::Stale { what: said, expired } => {
                &&& said == what
                &&& expires == Some(expired)
                &&& parsed_time(expired) matches Ok(deadline) && deadline < now
            },
            IndexFault::Malformed(_) => expires is None || (expires matches Some(written)
                && parsed_time(written) is Err),
            _ => false,
        },
{
}

/// Whether the digits of a digest are those of a SHA-256.
pub open spec fn is_a_digest(digest: Seq<char>) -> bool {
    let digits = bare_hex(digest);
    digits.len() == 64 && forall|i: int|
        0 <= i < digits.len() ==> {
            ||| '0' <= #[trigger] digits[i] && digits[i] <= '9'
            ||| 'a' <= digits[i] && digits[i] <= 'f'
            ||| 'A' <= digits[i] && digits[i] <= 'F'
        }
}

/// Whether a release is sound among those before it: its version is listed once, and its digest is
/// one.
pub open spec fn is_sound_at(releases: Seq<Release>, i: int) -> bool {
    &&& is_a_digest(releases[i].digest@)
    &&& forall|j: int| 0 <= j < i ==> (#[trigger] releases[j]).version@ != releases[i].version@
}

proof fn sound_from(plugin: Seq<char>, releases: Seq<Release>, from: int)
    requires
        0 <= from <= releases.len(),
    ensures
        release_fault_from(plugin, releases, from) is None <==> forall|i: int|
            from <= i < releases.len() ==> #[trigger] is_sound_at(releases, i),
        release_fault_from(plugin, releases, from) matches Some(fault) ==> fault is Malformed,
    decreases releases.len() - from,
{
    if from < releases.len() {
        sound_from(plugin, releases, from + 1);
        let version = releases[from].version@;
        assert(crate::index::listed(releases, version, from) <==> exists|j: int|
            0 <= j < from && (#[trigger] releases[j]).version@ == version);
        assert(is_a_digest(releases[from].digest@) <==> crate::lock::is_sha256(
            bare_hex(releases[from].digest@),
        ));
        if release_fault_from(plugin, releases, from) is None {
            assert(is_sound_at(releases, from));
        }
        if forall|i: int| from <= i < releases.len() ==> #[trigger] is_sound_at(releases, i) {
            assert(is_sound_at(releases, from));
        }
    }
}

/// A release document is taken exactly when this client understands it, it is the document that was
/// asked for, every version in it is listed once and has a digest; and only while it is fresh.
pub proof fn a_document_is_taken_when_sound(
    document: PluginReleases,
    name: Seq<char>,
    freshness: Freshness,
    now: i128,
)
    ensures
        document_fault(document, name) is None <==> {
            &&& document.schema <= INDEX_SCHEMA
            &&& document.name@ == name
            &&& forall|i: int|
                0 <= i < document.releases@.len() ==> #[trigger] is_sound_at(
                    document.releases@,
                    i,
                )
        },
        disbelief(document, name, freshness, now) is None <==> document_fault(document, name)
            is None && staleness(
            freshness,
            text::opt(document.expires),
            "the release document for `"@ + name + "`"@,
            now,
        ) is None,
        document_fault(document, name) is Some ==> disbelief(document, name, freshness, now)
            == document_fault(document, name),
        document_fault(document, name) matches Some(fault) ==> fault is Malformed,
{
    sound_from(document.name@, document.releases@, 0);
}

/// Whether a character may stand in a plugin's name: an ASCII letter or digit,
/// a dash, an underscore or a dot.
pub open spec fn may_stand_in_a_name(c: char) -> bool {
    ||| '0' <= c && c <= '9'
    ||| 'A' <= c && c <= 'Z'
    ||| 'a' <= c && c <= 'z'
    ||| c == '-'
    ||| c == '_'
    ||| c == '.'
}

/// A name is usable exactly when it is not empty, no longer than a file name may be, made of plain
/// characters, and not a step up or in place.
pub proof fn a_usable_name_is_plain(name: Seq<char>)
    ensures
        usable_name(name) <==> {
            &&& 1 <= name.len() <= 128
            &&& forall|i: int| 0 <= i < name.len() ==> may_stand_in_a_name(#[trigger] name[i])
            &&& name != seq!['.']
            &&& name != seq!['.', '.']
        },
{
    reveal_strlit(".");
    reveal_strlit("..");
    assert("."@ =~= seq!['.']);
    assert(".."@ =~= seq!['.', '.']);
    assert forall|c: char| #[trigger] may_stand_in_a_name(c) == crate::index::name_char(c) by {}
    if forall|i: int| 0 <= i < name.len() ==> may_stand_in_a_name(#[trigger] name[i]) {
        assert forall|i: int| 0 <= i < name.len() implies crate::index::name_char(
            #[trigger] name[i],
        ) by {
            assert(may_stand_in_a_name(name[i]));
        }
    }
}

/// A manifest publishes the version it declares, and nought where it declares none: so two that
/// declare none publish the same.
pub proof fn a_manifest_publishes_what_it_declares(a: Manifest, b: Manifest)
    ensures
        a.version matches Some(version) ==> a.published() == version@,
        a.version is None && b.version is None ==> a.published() == b.published(),
        a.version is None ==> a.published() == crate::version::three_numbers(0, 0, 0),
{
}

} // verus!
