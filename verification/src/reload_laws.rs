//! What holds of reloading, of what a directory holds, and of what a load is reported to have
//! done.

use crate::audit::{unmet_of, unmet_upto, PluginAudit};
use crate::capability::{request_views, Request};
use crate::discover::{failures_of, in_order, manifests_of, put_reading, rock_fault, read_fault, Reading};
use crate::failure::{Failed, FailureReason, RegistryError, Why};
use crate::loader::{ruled_by_files, Built};
use crate::manifest::{DependencySpec, Manifest};
use crate::names;
use crate::registry::{place_in, plugin_names, Group, Plugin, Registry};
use crate::reload::{
    present_upto, rebuilt, reload_comes_to, reload_outcome, replaced, resurfaced, wiring_fault,
    wiring_fault_from,
};
use crate::signature::{DirectoryDigest, Signer};
use crate::trust::{ruled_on, Listing};
use vstd::prelude::*;
use vstd::string::*;

verus! {

/// Whether a plugin was put in another's place by a reload: it has the other's name, place in a
/// group and allowance, it offers exports where the other did, and it was admitted again on its
/// own files.
pub open spec fn takes_the_place_of<I, E, L: Fn(&Manifest) -> Listing>(
    plugin: Plugin<I, E>,
    was: Plugin<I, E>,
    registry: Registry<I, E>,
    files: L,
) -> bool {
    &&& plugin.manifest.name@ == was.manifest.name@
    &&& plugin.group == was.group
    &&& plugin.budget == was.budget
    &&& was.exports is Some ==> plugin.exports is Some
    &&& exists|listing: Listing| #[trigger]
        call_ensures(files, (&plugin.manifest,), listing) && ruled_on(
            registry,
            plugin.manifest,
            listing,
            Ok((plugin.signer, plugin.digest)),
        )
}

/// Whether a plugin's manifest was read where another stands, and the plugin was built from it
/// under the registry's rules.
pub open spec fn was_read_and_built<
    I,
    E,
    X,
    R: Fn(&str) -> Result<Manifest, FailureReason>,
    B: Fn(&Registry<I, E>, &Manifest, Group, &Signer, &Option<DirectoryDigest>) -> Result<
        Built<I, X>,
        FailureReason,
    >,
>(plugin: Plugin<I, E>, was: Plugin<I, E>, registry: Registry<I, E>, read: R, build: B) -> bool {
    &&& exists|dir: &str| #[trigger]
        call_ensures(read, (dir,), Ok::<Manifest, FailureReason>(plugin.manifest)) && dir@
            == was.manifest.dir@
    &&& exists|built: Built<I, X>|
        {
            &&& #[trigger] call_ensures(
                build,
                (&registry, &plugin.manifest, was.group, &plugin.signer, &plugin.digest),
                Ok::<Built<I, X>, FailureReason>(built),
            )
            &&& plugin.instance == built.instance
            &&& plugin.granted == built.granted
        }
}

/// A reload changes one plugin or nothing: where it fails the registry is as it was, and where it
/// succeeds every other plugin is, and the one that was named has been read, admitted and built
/// anew in the place of the old one.
pub proof fn a_reload_changes_one_plugin<
    I,
    E,
    X,
    R: Fn(&str) -> Result<Manifest, FailureReason>,
    L: Fn(&Manifest) -> Listing,
    B: Fn(&Registry<I, E>, &Manifest, Group, &Signer, &Option<DirectoryDigest>) -> Result<
        Built<I, X>,
        FailureReason,
    >,
    P: Fn(Option<&E>, X) -> Result<E, FailureReason>,
>(
    read: R,
    files: L,
    build: B,
    publish: P,
    before: Registry<I, E>,
    name: Seq<char>,
    r: Result<(), RegistryError>,
    after: Registry<I, E>,
)
    requires
        before.wf(),
        reload_outcome(read, files, build, publish, before, name, r, after),
    ensures
        r is Err ==> after == before,
        !before.loaded().contains(name) ==> (r matches Err(RegistryError::UnknownPlugin(said))
            && said@ == name),
        r is Ok ==> exists|at: int|
            {
                &&& 0 <= at < before.plugins@.len()
                &&& (#[trigger] before.plugins@[at]).manifest.name@ == name
                &&& after.plugins@.len() == before.plugins@.len()
                &&& forall|i: int|
                    0 <= i < before.plugins@.len() && i != at ==> #[trigger] after.plugins@[i]
                        == before.plugins@[i]
                &&& takes_the_place_of(after.plugins@[at], before.plugins@[at], before, files)
                &&& was_read_and_built(
                    after.plugins@[at],
                    before.plugins@[at],
                    before,
                    read,
                    build,
                )
            },
        before.loaded().contains(name) && r is Err ==> (r matches Err(
            RegistryError::Reload(failure),
        ) && failure@.name == name && exists|at: int|
            0 <= at < before.plugins@.len() && (#[trigger] before.plugins@[at]).manifest.name@ == name
                && failure@.dir == before.plugins@[at].manifest.dir@),
{
    if before.loaded().contains(name) {
        let at = place_in(before.loaded(), name);
        assert(before.loaded()[at] == name);
        let was = before.plugins@[at];
        assert(was.manifest.name@ == name);
        let came = choose|came: Result<Plugin<I, E>, Why>|
            {
                &&& #[trigger] reload_comes_to(read, files, build, publish, before, was, came)
                &&& match came {
                    Ok(plugin) => r is Ok && after.plugins@ == before.plugins@.update(at, plugin),
                    Err(reason) => {
                        &&& r matches Err(error)
                        &&& crate::reload::reload_fault(error) == Some(
                            Failed { name, dir: was.manifest.dir@, reason },
                        )
                        &&& after == before
                    },
                }
            };
        if came is Ok {
            comes_anew(read, files, build, publish, before, was, came->Ok_0);
            assert(after.plugins@[at] == came->Ok_0);
        }
    }
}

proof fn comes_anew<
    I,
    E,
    X,
    R: Fn(&str) -> Result<Manifest, FailureReason>,
    L: Fn(&Manifest) -> Listing,
    B: Fn(&Registry<I, E>, &Manifest, Group, &Signer, &Option<DirectoryDigest>) -> Result<
        Built<I, X>,
        FailureReason,
    >,
    P: Fn(Option<&E>, X) -> Result<E, FailureReason>,
>(
    read: R,
    files: L,
    build: B,
    publish: P,
    registry: Registry<I, E>,
    was: Plugin<I, E>,
    plugin: Plugin<I, E>,
)
    requires
        reload_comes_to(
            read,
            files,
            build,
            publish,
            registry,
            was,
            Ok::<Plugin<I, E>, Why>(plugin),
        ),
    ensures
        takes_the_place_of(plugin, was, registry, files),
        was_read_and_built(plugin, was, registry, read, build),
{
    let r = Ok::<Plugin<I, E>, Why>(plugin);
    let (dir, found) = choose|dir: &str, found: Result<Manifest, FailureReason>|
        {
            &&& dir@ == was.manifest.dir@
            &&& #[trigger] call_ensures(read, (dir,), found)
            &&& match found {
                Err(reason) => r == Err::<Plugin<I, E>, Why>(reason@),
                Ok(manifest) => manifest.name@ == was.manifest.name@ && exists|
                    admission: Result<(Signer, Option<DirectoryDigest>), FailureReason>,
                |
                    #[trigger]
                    ruled_by_files(registry, files, manifest, admission) && rebuilt(
                        build,
                        publish,
                        registry,
                        was,
                        manifest,
                        admission,
                        r,
                    ),
            }
        };
    let manifest = found->Ok_0;
    let admission = choose|admission: Result<(Signer, Option<DirectoryDigest>), FailureReason>|
        #[trigger]
        ruled_by_files(registry, files, manifest, admission) && rebuilt(
            build,
            publish,
            registry,
            was,
            manifest,
            admission,
            r,
        );
    let (signer, digest) = admission->Ok_0;
    let built = choose|built: Result<Built<I, X>, FailureReason>|
        {
            &&& #[trigger] call_ensures(
                build,
                (&registry, &manifest, was.group, &signer, &digest),
                built,
            )
            &&& replaced(publish, was, manifest, signer, digest, built, r)
        };
    assert(plugin.manifest == manifest);
    assert(call_ensures(read, (dir,), Ok::<Manifest, FailureReason>(plugin.manifest)));
    assert(call_ensures(
        build,
        (&registry, &plugin.manifest, was.group, &plugin.signer, &plugin.digest),
        Ok::<Built<I, X>, FailureReason>(built->Ok_0),
    ));
    let listing = choose|listing: Listing| #[trigger]
        call_ensures(files, (&manifest,), listing) && ruled_on(
            registry,
            manifest,
            listing,
            admission,
        );
    assert(call_ensures(files, (&plugin.manifest,), listing));
    let surface = choose|surface: Result<Option<E>, Why>|
        {
            &&& #[trigger] resurfaced(
                publish,
                was.manifest.name@,
                was.exports,
                built->Ok_0.exports,
                surface,
            )
            &&& r == match surface {
                Err(why) => Err::<Plugin<I, E>, Why>(why),
                Ok(exports) => Ok::<Plugin<I, E>, Why>(
                    Plugin {
                        manifest,
                        granted: built->Ok_0.granted,
                        group: was.group,
                        signer,
                        digest,
                        instance: built->Ok_0.instance,
                        exports,
                        budget: was.budget,
                    },
                ),
            }
        };
}

/// Whether a plugin of a name is loaded and offers nothing.
pub open spec fn offers_nothing<I, E>(plugins: Seq<Plugin<I, E>>, name: Seq<char>) -> bool {
    exists|i: int|
        0 <= i < plugins.len() && (#[trigger] plugins[i]).manifest.name@ == name
            && plugins[i].exports is None
}

/// Whether a plugin of a name is loaded.
pub open spec fn is_loaded<I, E>(plugins: Seq<Plugin<I, E>>, name: Seq<char>) -> bool {
    exists|i: int| 0 <= i < plugins.len() && (#[trigger] plugins[i]).manifest.name@ == name
}

/// Whether a dependency can be handed over: it is loaded and offers something, or it is not and
/// need not be.
pub open spec fn can_be_wired<I, E>(
    plugins: Seq<Plugin<I, E>>,
    name: Seq<char>,
    dependency: DependencySpec,
) -> bool {
    if is_loaded(plugins, name) {
        !offers_nothing(plugins, name)
    } else {
        dependency.may_be_absent()
    }
}

proof fn names_are_those_loaded<I, E>(plugins: Seq<Plugin<I, E>>, name: Seq<char>)
    requires
        plugin_names(plugins).no_duplicates(),
    ensures
        plugin_names(plugins).contains(name) <==> is_loaded(plugins, name),
        is_loaded(plugins, name) ==> {
            let at = place_in(plugin_names(plugins), name);
            &&& 0 <= at < plugins.len()
            &&& plugins[at].manifest.name@ == name
            &&& offers_nothing(plugins, name) <==> plugins[at].exports is None
        },
{
    let all = plugin_names(plugins);
    if is_loaded(plugins, name) {
        let i = choose|i: int|
            0 <= i < plugins.len() && (#[trigger] plugins[i]).manifest.name@ == name;
        assert(all[i] == name);
        let at = place_in(all, name);
        assert(all[at] == name);
        assert(plugins[at].manifest.name@ == name);
        if offers_nothing(plugins, name) {
            let k = choose|k: int|
                0 <= k < plugins.len() && (#[trigger] plugins[k]).manifest.name@ == name
                    && plugins[k].exports is None;
            assert(all[k] == name);
        }
    }
    if all.contains(name) {
        let i = choose|i: int| 0 <= i < all.len() && all[i] == name;
        assert(plugins[i].manifest.name@ == name);
    }
}

/// A plugin is wired exactly when each of its dependencies can be handed over; what is told
/// otherwise is true of one of them.
pub proof fn every_dependency_is_wired<I, E>(
    plugins: Seq<Plugin<I, E>>,
    dependencies: Seq<(String, DependencySpec)>,
    from: int,
)
    requires
        plugin_names(plugins).no_duplicates(),
        0 <= from <= dependencies.len(),
    ensures
        wiring_fault_from(plugins, dependencies, from) is None <==> forall|d: int|
            from <= d < dependencies.len() ==> can_be_wired(
                plugins,
                (#[trigger] dependencies[d]).0@,
                dependencies[d].1,
            ),
        wiring_fault_from(plugins, dependencies, from) matches Some(why) ==> exists|d: int|
            {
                &&& from <= d < dependencies.len()
                &&& match why {
                    Why::MissingExports(name) => name == (#[trigger] dependencies[d]).0@
                        && offers_nothing(plugins, name),
                    Why::MissingDependency(name) => name == dependencies[d].0@ && !is_loaded(
                        plugins,
                        name,
                    ) && !dependencies[d].1.may_be_absent(),
                    _ => false,
                }
            },
    decreases dependencies.len() - from,
{
    if from < dependencies.len() {
        let name = dependencies[from].0@;
        names_are_those_loaded(plugins, name);
        every_dependency_is_wired(plugins, dependencies, from + 1);
        assert(wiring_fault(plugins, name, dependencies[from].1) is None <==> can_be_wired(
            plugins,
            dependencies[from].0@,
            dependencies[from].1,
        ));
    }
}

/// The dependencies that are handed over are those declared that are loaded, and no other.
pub proof fn loaded_dependencies_are_handed_over<I, E>(
    plugins: Seq<Plugin<I, E>>,
    dependencies: Seq<(String, DependencySpec)>,
    n: int,
    name: Seq<char>,
)
    requires
        plugin_names(plugins).no_duplicates(),
        0 <= n <= dependencies.len(),
    ensures
        present_upto(plugins, dependencies, n).contains(name) <==> is_loaded(plugins, name) && exists|
            d: int,
        |
            0 <= d < n && (#[trigger] dependencies[d]).0@ == name,
    decreases n,
{
    names_are_those_loaded(plugins, name);
    if n > 0 {
        loaded_dependencies_are_handed_over(plugins, dependencies, n - 1, name);
        let less = present_upto(plugins, dependencies, n - 1);
        let here = dependencies[n - 1].0@;
        if less.contains(name) {
            let k = choose|k: int| 0 <= k < less.len() && less[k] == name;
            assert(less.push(here)[k] == name);
        }
        if here == name {
            assert(less.push(here)[less.len() as int] == name);
        }
        if less.push(here).contains(name) && here != name {
            let k = choose|k: int| 0 <= k < less.len() + 1 && less.push(here)[k] == name;
            assert(less[k] == name);
        }
    }
}

proof fn put_keeps(list: Seq<Reading>, reading: Reading)
    ensures
        put_reading(list, reading).to_multiset() == list.to_multiset().insert(reading),
        put_reading(list, reading).len() == list.len() + 1,
        sorted(list) ==> sorted(put_reading(list, reading)),
        forall|k: int|
            0 <= k < put_reading(list, reading).len() ==> (#[trigger] put_reading(list, reading)[k]
                == reading || exists|j: int|
                0 <= j < list.len() && list[j] == put_reading(list, reading)[k]),
    decreases list.len(),
{
    broadcast use vstd::seq_lib::group_to_multiset_ensures;

    let all = put_reading(list, reading);
    if list.len() > 0 && names::before(reading.name@, list.last().name@) {
        let less = list.drop_last();
        put_keeps(less, reading);
        let shorter = put_reading(less, reading);
        assert(less.push(list.last()) =~= list);
        assert(all.to_multiset() =~= list.to_multiset().insert(reading));
        assert forall|k: int| 0 <= k < all.len() implies (#[trigger] all[k] == reading || exists|j: int|
            0 <= j < list.len() && list[j] == all[k]) by {
            if k < shorter.len() {
                assert(all[k] == shorter[k]);
                if shorter[k] != reading {
                    let j = choose|j: int| 0 <= j < less.len() && less[j] == shorter[k];
                    assert(list[j] == all[k]);
                }
            } else {
                assert(list[list.len() - 1] == all[k]);
            }
        }
        if sorted(list) {
            assert(sorted(less)) by {
                assert forall|i: int, j: int| 0 <= i < j < less.len() implies !names::before(
                    (#[trigger] less[j]).name@,
                    (#[trigger] less[i]).name@,
                ) by {
                    assert(list[i] == less[i] && list[j] == less[j]);
                }
            }
            assert forall|i: int, j: int| 0 <= i < j < all.len() implies !names::before(
                (#[trigger] all[j]).name@,
                (#[trigger] all[i]).name@,
            ) by {
                assert(all[i] == shorter[i]);
                if j < shorter.len() {
                    assert(all[j] == shorter[j]);
                } else if shorter[i] == reading {
                    names::before_asymmetric(reading.name@, list.last().name@);
                } else {
                    let k = choose|k: int| 0 <= k < less.len() && less[k] == shorter[i];
                    assert(list[k] == less[k]);
                    assert(list[list.len() - 1] == all[j]);
                }
            }
        }
    } else {
        assert(all.to_multiset() =~= list.to_multiset().insert(reading));
        assert forall|k: int| 0 <= k < all.len() implies (#[trigger] all[k] == reading || exists|j: int|
            0 <= j < list.len() && list[j] == all[k]) by {
            if k < list.len() {
                assert(list[k] == all[k]);
            }
        }
        if sorted(list) {
            assert forall|i: int, j: int| 0 <= i < j < all.len() implies !names::before(
                (#[trigger] all[j]).name@,
                (#[trigger] all[i]).name@,
            ) by {
                assert(all[i] == list[i]);
                if j < list.len() {
                    assert(all[j] == list[j]);
                } else {
                    let last = list.last();
                    assert(list[list.len() - 1] == last);
                    if i < list.len() - 1 {
                        assert(!names::before(last.name@, list[i].name@));
                    }
                    if names::before(reading.name@, list[i].name@) {
                        names::before_total(list[i].name@, last.name@);
                        if list[i].name@ != last.name@ {
                            names::before_transitive(
                                reading.name@,
                                list[i].name@,
                                last.name@,
                            );
                        }
                    }
                }
            }
        }
    }
}

/// Whether readings stand in the order of the names of their directories.
pub open spec fn sorted(list: Seq<Reading>) -> bool {
    forall|i: int, j: int|
        0 <= i < j < list.len() ==> !names::before(
            (#[trigger] list[j]).name@,
            (#[trigger] list[i]).name@,
        )
}

/// What a directory holds is taken in the order of its names: nothing is lost on the way and
/// nothing is added.
pub proof fn directories_are_taken_by_name(list: Seq<Reading>)
    ensures
        in_order(list).to_multiset() == list.to_multiset(),
        in_order(list).len() == list.len(),
        sorted(in_order(list)),
    decreases list.len(),
{
    broadcast use vstd::seq_lib::group_to_multiset_ensures;

    if list.len() > 0 {
        let less = list.drop_last();
        directories_are_taken_by_name(less);
        put_keeps(in_order(less), list.last());
        assert(less.push(list.last()) =~= list);
        assert(in_order(list).to_multiset() =~= list.to_multiset());
    } else {
        assert(in_order(list) =~= list);
    }
}

/// Every directory is either read or told of: what could be read is among the manifests, what could
/// not is among the failures with its name, where it stands and why, and nothing else is in either.
pub proof fn every_directory_is_read_or_told_of(list: Seq<Reading>)
    ensures
        manifests_of(list).len() + failures_of(list).len() == list.len(),
        forall|i: int|
            0 <= i < list.len() ==> match (#[trigger] list[i]).manifest {
                Ok(manifest) => manifests_of(list).contains(manifest),
                Err(reason) => failures_of(list).contains(
                    Failed { name: list[i].name@, dir: list[i].dir@, reason: reason@ },
                ),
            },
        forall|k: int|
            0 <= k < manifests_of(list).len() ==> exists|i: int|
                0 <= i < list.len() && (#[trigger] list[i]).manifest == Ok::<Manifest, FailureReason>(
                    #[trigger] manifests_of(list)[k],
                ),
    decreases list.len(),
{
    if list.len() > 0 {
        let less = list.drop_last();
        every_directory_is_read_or_told_of(less);
        let read = manifests_of(less);
        let told = failures_of(less);
        let read_here = manifests_of(list);
        let told_here = failures_of(list);
        let last = list.len() - 1;
        assert forall|i: int| 0 <= i < list.len() implies match (#[trigger] list[i]).manifest {
            Ok(manifest) => read_here.contains(manifest),
            Err(reason) => told_here.contains(
                Failed { name: list[i].name@, dir: list[i].dir@, reason: reason@ },
            ),
        } by {
            if i < last {
                assert(list[i] == less[i]);
                match less[i].manifest {
                    Ok(manifest) => {
                        let k = choose|k: int| 0 <= k < read.len() && read[k] == manifest;
                        assert(read_here[k] == manifest);
                    },
                    Err(reason) => {
                        let failure = Failed {
                            name: list[i].name@,
                            dir: list[i].dir@,
                            reason: reason@,
                        };
                        let k = choose|k: int| 0 <= k < told.len() && told[k] == failure;
                        assert(told_here[k] == failure);
                    },
                }
            } else {
                match list[i].manifest {
                    Ok(manifest) => {
                        assert(read_here[read.len() as int] == manifest);
                    },
                    Err(reason) => {
                        assert(told_here[told.len() as int] == Failed {
                            name: list[i].name@,
                            dir: list[i].dir@,
                            reason: reason@,
                        });
                    },
                }
            }
        }
        assert forall|k: int| 0 <= k < read_here.len() implies exists|i: int|
            0 <= i < list.len() && (#[trigger] list[i]).manifest == Ok::<Manifest, FailureReason>(
                #[trigger] read_here[k],
            ) by {
            if k < read.len() {
                let i = choose|i: int|
                    0 <= i < less.len() && (#[trigger] less[i]).manifest == Ok::<
                        Manifest,
                        FailureReason,
                    >(read[k]);
                assert(list[i] == less[i]);
                assert(read_here[k] == read[k]);
            } else {
                assert(list[last].manifest == Ok::<Manifest, FailureReason>(read_here[k]));
            }
        }
    }
}

/// A manifest is taken exactly when it names its plugin and each rock in it could be read.
pub proof fn a_manifest_is_taken_when_sound(manifest: Manifest, rocks: Seq<Option<String>>)
    requires
        rocks.len() == manifest.rocks@.len(),
    ensures
        read_fault(manifest, rocks) is None <==> manifest.name@.len() > 0 && forall|i: int|
            0 <= i < rocks.len() ==> (#[trigger] rocks[i]) is None,
{
    rocks_from(manifest.rocks@, rocks, 0);
}

proof fn rocks_from(rocks: Seq<(String, String)>, errors: Seq<Option<String>>, from: int)
    requires
        0 <= from <= rocks.len(),
        rocks.len() == errors.len(),
    ensures
        rock_fault(rocks, errors, from) is None <==> forall|i: int|
            from <= i < errors.len() ==> (#[trigger] errors[i]) is None,
    decreases rocks.len() - from,
{
    if from < rocks.len() {
        rocks_from(rocks, errors, from + 1);
    }
}

/// The requests that a host cannot meet are those for a capability it does not offer, and no other.
pub proof fn unmet_requests_are_those_not_offered(
    list: Seq<Request>,
    offered: Seq<Seq<char>>,
    n: int,
)
    requires
        0 <= n <= list.len(),
    ensures
        unmet_of(list, offered, n) == list.take(n).filter(
            |request: Request| !offered.contains(request.name),
        ),
    decreases n,
{
    reveal(Seq::filter);
    let keep = |request: Request| !offered.contains(request.name);
    if n > 0 {
        unmet_requests_are_those_not_offered(list, offered, n - 1);
        assert(list.take(n).drop_last() =~= list.take(n - 1));
        assert(list.take(n).last() == list[n - 1]);
    } else {
        assert(list.take(0) =~= Seq::<Request>::empty());
    }
}

/// An audit tells of every request of every plugin that the host cannot meet.
pub proof fn an_audit_tells_of_every_unmet_request(
    plugins: Seq<PluginAudit>,
    offered: Seq<Seq<char>>,
    n: int,
    request: Request,
)
    requires
        0 <= n <= plugins.len(),
    ensures
        unmet_upto(plugins, offered, n).contains(request) <==> !offered.contains(request.name)
            && exists|i: int|
            0 <= i < n && request_views((#[trigger] plugins[i]).requests@).contains(request),
    decreases n,
{
    if n > 0 {
        an_audit_tells_of_every_unmet_request(plugins, offered, n - 1, request);
        let less = unmet_upto(plugins, offered, n - 1);
        let asked = request_views(plugins[n - 1].requests@);
        let here = unmet_of(asked, offered, plugins[n - 1].requests@.len() as int);
        unmet_requests_are_those_not_offered(asked, offered, asked.len() as int);
        assert(asked.take(asked.len() as int) =~= asked);
        let keep = |request: Request| !offered.contains(request.name);
        assert(here.contains(request) <==> asked.contains(request) && !offered.contains(request.name)) by {
            if here.contains(request) {
                let k = choose|k: int| 0 <= k < here.len() && here[k] == request;
                asked.lemma_filter_pred(keep, k);
                asked.lemma_filter_contains_rev(keep, request);
            }
            if asked.contains(request) && keep(request) {
                let k = choose|k: int| 0 <= k < asked.len() && asked[k] == request;
                asked.lemma_filter_contains(keep, k);
            }
        }
        let all = less + here;
        if less.contains(request) {
            let k = choose|k: int| 0 <= k < less.len() && less[k] == request;
            assert(all[k] == request);
        }
        if here.contains(request) {
            let k = choose|k: int| 0 <= k < here.len() && here[k] == request;
            assert(all[less.len() + k] == request);
        }
        if all.contains(request) {
            let k = choose|k: int| 0 <= k < all.len() && all[k] == request;
            if k < less.len() {
                assert(less[k] == request);
            } else {
                assert(here[k - less.len()] == request);
            }
        }
    }
}

} // verus!
