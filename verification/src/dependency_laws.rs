//! What holds of dependencies and the versions they require, whatever order is found.

use crate::failure::{Failed, FailureReason, LoadFailure, RegistryError, Why};
use crate::load::{Placement, Rocks};
use crate::load_laws::{adds_the_next, comes_so_far};
use crate::loader::{load_comes_to, Built, Stage, Works};
use crate::manifest::{DependencySpec, Manifest};
use crate::registry::{Group, LoadReport, Registry, StateSource};
use crate::resolve;
use crate::resolve::{
    displaced, displaced_failure, displaced_upto, is_displaced, load_order, node_has_place,
    node_order, nodes, order_failures, ordered_is_node, place, place_holds, place_upto, unmet,
    unmet_from, unmet_upto, version_named,
};
use crate::signature::{DirectoryDigest, Signer};
use crate::trust::Listing;
use crate::version::requirement_allows;
use vstd::prelude::*;

verus! {

/// Whether a manifest is the last of a list that has a name.
pub open spec fn stands_for(ms: Seq<Manifest>, name: Seq<char>, i: int) -> bool {
    &&& 0 <= i < ms.len()
    &&& ms[i].name@ == name
    &&& forall|j: int| i < j < ms.len() ==> (#[trigger] ms[j]).name@ != name
}

/// Whether a root holds a plugin of a name.
pub open spec fn holds_plugin(ms: Seq<Manifest>, name: Seq<char>) -> bool {
    exists|i: int| #[trigger] stands_for(ms, name, i)
}

/// Whether a version is the one that a plugin of a root publishes: `0.0.0` where it names none.
pub open spec fn publishes(manifest: Manifest, version: Seq<char>) -> bool {
    match manifest.version {
        Some(declared) => version == declared@,
        None => version == crate::version::three_numbers(0, 0, 0),
    }
}

/// Whether a dependency is written with a requirement.
pub open spec fn asks_for(dependency: DependencySpec, requirement: Seq<char>) -> bool {
    match dependency {
        DependencySpec::Requirement(bare) => requirement == bare@,
        DependencySpec::Detailed(table) => requirement == table.version@,
    }
}

/// Whether a dependency is written as one that may be absent.
pub open spec fn is_marked_optional(dependency: DependencySpec) -> bool {
    dependency matches DependencySpec::Detailed(table) && table.optional
}

/// Whether a root meets one dependency: what it holds under the name is of a version that the
/// requirement allows, and it holds something unless the dependency may be absent.
pub open spec fn meets(ms: Seq<Manifest>, name: Seq<char>, dependency: DependencySpec) -> bool {
    &&& forall|i: int, version: Seq<char>, requirement: Seq<char>|
        #![trigger stands_for(ms, name, i), publishes(ms[i], version), asks_for(dependency, requirement)]
        stands_for(ms, name, i) && publishes(ms[i], version) && asks_for(dependency, requirement)
            ==> requirement_allows(requirement, version)
    &&& !is_marked_optional(dependency) ==> holds_plugin(ms, name)
}

/// Whether a root meets every dependency of a manifest.
pub open spec fn root_meets(ms: Seq<Manifest>, manifest: Manifest) -> bool {
    forall|d: int|
        0 <= d < manifest.dependencies@.len() ==> meets(
            ms,
            (#[trigger] manifest.dependencies@[d]).0@,
            manifest.dependencies@[d].1,
        )
}

/// The version that a root offers under a name is that of the last plugin that has it.
pub proof fn offered_version_is_the_last(ms: Seq<Manifest>, name: Seq<char>)
    ensures
        version_named(ms, name) is Some <==> holds_plugin(ms, name),
        forall|i: int| #[trigger]
            stands_for(ms, name, i) ==> version_named(ms, name) is Some && publishes(
                ms[i],
                version_named(ms, name)->0,
            ),
    decreases ms.len(),
{
    if ms.len() > 0 {
        let less = ms.drop_last();
        offered_version_is_the_last(less, name);
        if ms.last().name@ == name {
            assert(stands_for(ms, name, ms.len() - 1));
            assert forall|i: int| #[trigger] stands_for(ms, name, i) implies i == ms.len() - 1 by {
                if i < ms.len() - 1 {
                    assert(ms[ms.len() - 1].name@ != name);
                }
            }
        } else {
            assert forall|i: int| stands_for(ms, name, i) <==> #[trigger] stands_for(less, name, i) by {
                if stands_for(ms, name, i) {
                    assert(i < less.len());
                    assert forall|j: int| i < j < less.len() implies (#[trigger] less[j]).name@
                        != name by {
                        assert(ms[j].name@ != name);
                    }
                }
                if stands_for(less, name, i) {
                    assert forall|j: int| i < j < ms.len() implies (#[trigger] ms[j]).name@ != name by {
                        if j < less.len() {
                            assert(less[j].name@ != name);
                        }
                    }
                }
            }
            if holds_plugin(ms, name) {
                let i = choose|i: int| #[trigger] stands_for(ms, name, i);
                assert(stands_for(less, name, i));
            }
            if holds_plugin(less, name) {
                let i = choose|i: int| #[trigger] stands_for(less, name, i);
                assert(stands_for(ms, name, i));
            }
            assert forall|i: int| #[trigger] stands_for(ms, name, i) implies version_named(ms, name)
                is Some && publishes(ms[i], version_named(ms, name)->0) by {
                assert(stands_for(less, name, i));
                assert(less[i] == ms[i]);
            }
        }
    }
}

proof fn one_stands(ms: Seq<Manifest>, name: Seq<char>, i: int, j: int)
    requires
        stands_for(ms, name, i),
        stands_for(ms, name, j),
    ensures
        i == j,
{
    if i < j {
        assert(ms[j].name@ != name);
    } else if j < i {
        assert(ms[i].name@ != name);
    }
}

/// Whether a reason tells truly why a root does not meet a dependency of a manifest: it is not
/// there, or what is there is of a version that the requirement does not allow.
pub open spec fn tells_what_is_missing(ms: Seq<Manifest>, manifest: Manifest, why: Why) -> bool {
    exists|d: int|
        0 <= d < manifest.dependencies@.len() && {
            let name = (#[trigger] manifest.dependencies@[d]).0@;
            let dependency = manifest.dependencies@[d].1;
            &&& !meets(ms, name, dependency)
            &&& match why {
                Why::MissingDependency(said) => said == name && !holds_plugin(ms, name)
                    && !is_marked_optional(dependency),
                Why::IncompatibleDependency { name: said, required, found } => {
                    &&& said == name
                    &&& asks_for(dependency, required)
                    &&& !requirement_allows(required, found)
                    &&& exists|i: int| #[trigger] stands_for(ms, name, i) && publishes(ms[i], found)
                },
                _ => false,
            }
        }
}

proof fn meets_one(ms: Seq<Manifest>, name: Seq<char>, dependency: DependencySpec)
    ensures
        resolve::unmet_dependency(ms, name, dependency) is None <==> meets(ms, name, dependency),
{
    offered_version_is_the_last(ms, name);
    let required = dependency.required();
    assert(asks_for(dependency, required));
    match version_named(ms, name) {
        Some(found) => {
            let i = choose|i: int| #[trigger] stands_for(ms, name, i);
            assert(publishes(ms[i], found));
            if meets(ms, name, dependency) {
                assert(requirement_allows(required, found));
            }
            if requirement_allows(required, found) {
                assert forall|j: int, version: Seq<char>, requirement: Seq<char>|
                    #![trigger stands_for(ms, name, j), publishes(ms[j], version), asks_for(dependency, requirement)]
                    stands_for(ms, name, j) && publishes(ms[j], version) && asks_for(
                        dependency,
                        requirement,
                    ) implies requirement_allows(requirement, version) by {
                    one_stands(ms, name, i, j);
                }
            }
        },
        None => {},
    }
}

proof fn met_from(ms: Seq<Manifest>, manifest: Manifest, from: int)
    requires
        0 <= from <= manifest.dependencies@.len(),
    ensures
        unmet_from(ms, manifest.dependencies@, from) is None <==> forall|d: int|
            from <= d < manifest.dependencies@.len() ==> meets(
                ms,
                (#[trigger] manifest.dependencies@[d]).0@,
                manifest.dependencies@[d].1,
            ),
        unmet_from(ms, manifest.dependencies@, from) matches Some(why) ==> tells_what_is_missing(
            ms,
            manifest,
            why,
        ),
    decreases manifest.dependencies@.len() - from,
{
    let all = manifest.dependencies@;
    if from < all.len() {
        let name = all[from].0@;
        let dependency = all[from].1;
        meets_one(ms, name, dependency);
        met_from(ms, manifest, from + 1);
        match resolve::unmet_dependency(ms, name, dependency) {
            Some(why) => {
                offered_version_is_the_last(ms, name);
                assert(asks_for(dependency, dependency.required()));
                if version_named(ms, name) is Some {
                    let i = choose|i: int| #[trigger] stands_for(ms, name, i);
                    assert(publishes(ms[i], version_named(ms, name)->0));
                }
                assert(!meets(ms, all[from].0@, all[from].1));
                assert(tells_what_is_missing(ms, manifest, why));
            },
            None => {},
        }
    }
}

/// A plugin is left out exactly when the root does not meet one of its dependencies, the first
/// and every other alike, and the reason names a dependency that is truly not met.
pub proof fn left_out_when_not_met(ms: Seq<Manifest>, manifest: Manifest)
    ensures
        unmet(ms, manifest) is None <==> root_meets(ms, manifest),
        unmet(ms, manifest) matches Some(why) ==> tells_what_is_missing(ms, manifest, why),
{
    met_from(ms, manifest, 0);
}

/// Every plugin that is ordered has each of its dependencies met by the root: each that is there
/// is of a version that its requirement allows, and each that may not be absent is there.
pub proof fn ordered_plugins_are_met(ms: Seq<Manifest>, k: int)
    requires
        0 <= k < load_order(ms).len(),
    ensures
        place(ms, load_order(ms)[k]) is Some,
        0 <= place(ms, load_order(ms)[k])->0 < ms.len(),
        root_meets(ms, ms[place(ms, load_order(ms)[k])->0]),
{
    let name = load_order(ms)[k];
    let all = node_order(nodes(ms));
    resolve::firsts_hold(all, all.len() as int);
    assert(load_order(ms).contains(name));
    let c = choose|c: int| 0 <= c < all.len() && (#[trigger] all[c]) == name;
    assert(all.contains(name));
    ordered_is_node(nodes(ms), name);
    node_has_place(ms, name);
    place_holds(ms, name, ms.len() as int);
    left_out_when_not_met(ms, ms[place(ms, name)->0]);
}

proof fn left_out_upto(ms: Seq<Manifest>, n: int, i: int)
    requires
        0 <= i < n <= ms.len(),
        unmet(ms, ms[i]) is Some,
    ensures
        exists|f: int|
            0 <= f < unmet_upto(ms, n).len() && (#[trigger] unmet_upto(ms, n)[f]) == (Failed {
                name: ms[i].name@,
                dir: ms[i].dir@,
                reason: unmet(ms, ms[i])->0,
            }),
    decreases n,
{
    let here = unmet_upto(ms, n);
    let wanted = Failed { name: ms[i].name@, dir: ms[i].dir@, reason: unmet(ms, ms[i])->0 };
    if i == n - 1 {
        assert(here[here.len() - 1] == wanted);
    } else {
        left_out_upto(ms, n - 1, i);
        let less = unmet_upto(ms, n - 1);
        let f = choose|f: int| 0 <= f < less.len() && (#[trigger] less[f]) == wanted;
        assert(here[f] == less[f]);
    }
}

/// Whether failures report a manifest, with a reason that tells truly what is missing.
pub open spec fn reports_missing(
    failures: Seq<Failed>,
    ms: Seq<Manifest>,
    manifest: Manifest,
) -> bool {
    exists|f: int|
        {
            &&& 0 <= f < failures.len()
            &&& (#[trigger] failures[f]).name == manifest.name@
            &&& failures[f].dir == manifest.dir@
            &&& tells_what_is_missing(ms, manifest, failures[f].reason)
        }
}

/// Every plugin whose dependencies the root does not meet is reported, with a reason that names
/// what is missing.
pub proof fn unmet_plugins_are_reported(ms: Seq<Manifest>, i: int)
    requires
        0 <= i < ms.len(),
        !root_meets(ms, ms[i]),
    ensures
        reports_missing(order_failures(ms), ms, ms[i]),
{
    left_out_when_not_met(ms, ms[i]);
    left_out_upto(ms, ms.len() as int, i);
    let list = unmet_upto(ms, ms.len() as int);
    let f = choose|f: int|
        0 <= f < list.len() && (#[trigger] list[f]) == (Failed {
            name: ms[i].name@,
            dir: ms[i].dir@,
            reason: unmet(ms, ms[i])->0,
        });
    assert(order_failures(ms)[f] == list[f]);
}

/// Every plugin that a load adds has each of its dependencies met by what was discovered.
pub proof fn loaded_plugins_are_met<
    I,
    E,
    R: Fn(&Manifest) -> Rocks,
    L: Fn(&Manifest) -> Listing,
    S: Fn(&Manifest, Placement, StateSource) -> Option<String>,
    B: Fn(&Registry<I, E>, &Manifest, Group, &Signer, &Option<DirectoryDigest>) -> Result<
        Built<I, E>,
        FailureReason,
    >,
>(
    works: Works<R, L, S, B>,
    stages: Seq<Stage<I, E>>,
    start: Registry<I, E>,
    manifests: Seq<Manifest>,
    unreadable: Seq<LoadFailure>,
    r: Result<LoadReport, RegistryError>,
    end: Registry<I, E>,
    i: int,
)
    requires
        load_comes_to(works, stages, start, manifests, unreadable, r, end),
        0 <= i < stages.len() - 1,
        stages[i + 1].registry.plugins@.len() > stages[i].registry.plugins@.len(),
    ensures
        root_meets(manifests, stages[i + 1].registry.plugins@.last().manifest),
{
    comes_so_far(works, stages, i);
    adds_the_next(works, stages, i);
    assert(stages[i].progress.queue[0] == stages[0].progress.queue[i]);
    ordered_plugins_are_met(manifests, i);
}

/// Whether two plugins of a root, both with their dependencies met, have one name, and one of them
/// comes later.
pub open spec fn gives_way(ms: Seq<Manifest>, i: int, later: int) -> bool {
    &&& 0 <= i < later < ms.len()
    &&& ms[i].name@ == ms[later].name@
    &&& root_meets(ms, ms[i])
    &&& root_meets(ms, ms[later])
}

/// Whether a failure is that of one of the first `n` manifests whose name stands for another.
spec fn tells_of_one(ms: Seq<Manifest>, n: int, failure: Failed) -> bool {
    exists|i: int|
        0 <= i < n && is_displaced(ms, i) && failure == displaced_failure(#[trigger] ms[i])
}

proof fn gave_way_upto(ms: Seq<Manifest>, n: int)
    requires
        0 <= n <= ms.len(),
    ensures
        forall|i: int|
            0 <= i < n && is_displaced(ms, i) ==> displaced_upto(ms, n).contains(
                displaced_failure(#[trigger] ms[i]),
            ),
        forall|k: int|
            0 <= k < displaced_upto(ms, n).len() ==> tells_of_one(
                ms,
                n,
                #[trigger] displaced_upto(ms, n)[k],
            ),
    decreases n,
{
    if n > 0 {
        gave_way_upto(ms, n - 1);
        let less = displaced_upto(ms, n - 1);
        let here = displaced_upto(ms, n);
        assert forall|i: int| 0 <= i < n && is_displaced(ms, i) implies here.contains(
            displaced_failure(#[trigger] ms[i]),
        ) by {
            if i < n - 1 {
                let k = choose|k: int| 0 <= k < less.len() && less[k] == displaced_failure(ms[i]);
                assert(here[k] == displaced_failure(ms[i]));
            } else {
                assert(here[here.len() - 1] == displaced_failure(ms[i]));
            }
        }
        assert forall|k: int| 0 <= k < here.len() implies tells_of_one(ms, n, #[trigger] here[k]) by {
            if k < less.len() {
                assert(here[k] == less[k]);
                let i = choose|i: int|
                    0 <= i < n - 1 && is_displaced(ms, i) && less[k] == displaced_failure(
                        #[trigger] ms[i],
                    );
                assert(here[k] == displaced_failure(ms[i]));
            } else {
                assert(here[k] == displaced_failure(ms[n - 1]));
            }
        }
    }
}

proof fn last_one_stands(ms: Seq<Manifest>, name: Seq<char>, i: int, n: int)
    requires
        0 <= i < n <= ms.len(),
        ms[i].name@ == name,
        unmet(ms, ms[i]) is None,
    ensures
        place_upto(ms, name, n) matches Some(at) && i <= at < n,
    decreases n,
{
    place_holds(ms, name, n);
    if i < n - 1 {
        last_one_stands(ms, name, i, n - 1);
    }
}

/// Of several plugins with one name the last stands, and each other is reported by its name and its
/// own directory, whichever of them comes first.
pub proof fn earlier_namesakes_are_reported(ms: Seq<Manifest>, i: int, later: int)
    requires
        gives_way(ms, i, later),
    ensures
        place(ms, ms[i].name@) != Some(i),
        exists|k: int|
            0 <= k < displaced(ms).len() && (#[trigger] displaced(ms)[k]).name == ms[i].name@
                && displaced(ms)[k].dir == ms[i].dir@ && displaced(ms)[k].reason is Manifest,
{
    left_out_when_not_met(ms, ms[i]);
    left_out_when_not_met(ms, ms[later]);
    place_holds(ms, ms[i].name@, ms.len() as int);
    gave_way_upto(ms, ms.len() as int);
    last_one_stands(ms, ms[i].name@, later, ms.len() as int);
    assert(is_displaced(ms, i));
    let failure = displaced_failure(ms[i]);
    assert(displaced(ms).contains(failure));
    let k = choose|k: int| 0 <= k < displaced(ms).len() && displaced(ms)[k] == failure;
    assert(displaced(ms)[k].name == ms[i].name@);
}

/// Nothing is reported as having given way that did not: there is a later plugin of its name.
pub proof fn only_namesakes_give_way(ms: Seq<Manifest>, k: int)
    requires
        0 <= k < displaced(ms).len(),
    ensures
        exists|i: int, later: int| #[trigger]
            gives_way(ms, i, later) && displaced(ms)[k].name == ms[i].name@ && displaced(ms)[k].dir
                == ms[i].dir@,
{
    gave_way_upto(ms, ms.len() as int);
    assert(tells_of_one(ms, ms.len() as int, displaced(ms)[k]));
    let i = choose|i: int|
        0 <= i < ms.len() && is_displaced(ms, i) && displaced(ms)[k] == displaced_failure(
            #[trigger] ms[i],
        );
    place_holds(ms, ms[i].name@, ms.len() as int);
    last_one_stands(ms, ms[i].name@, i, ms.len() as int);
    let later = place(ms, ms[i].name@)->0;
    left_out_when_not_met(ms, ms[i]);
    left_out_when_not_met(ms, ms[later]);
    assert(gives_way(ms, i, later));
}

} // verus!
