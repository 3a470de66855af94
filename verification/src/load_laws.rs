//! What holds of every load, whatever the host's part in it does.

use crate::failure::{failed, FailureReason, Failed, LoadFailure, RegistryError};
use crate::load::{failed_names, nothing_loads_over_a_failure, refused_early, Placement, Rocks};
use crate::loader::{
    admitted_to, concluded, follows, load_comes_to, placed, ruled_by_files, tried, Built, Stage,
    Works,
};
use crate::manifest::Manifest;
use crate::order_laws::{dependencies_load_first, declares, distinct_names};
use crate::registry::{plugin_names, Group, LoadReport, Registry, StateSource};
use crate::resolve;
use crate::resolve::{load_order, order_failures, unmet, unmet_from, unmet_upto};
use crate::signature::{DirectoryDigest, Signer};
use crate::text;
use crate::trust::Listing;
use vstd::prelude::*;

verus! {

/// What one plugin's turn changes.
spec fn turn<I, E>(before: Stage<I, E>, after: Stage<I, E>) -> bool {
    let manifest = before.progress.queue[0];
    &&& before.progress.queue.len() > 0
    &&& after.progress.queue == before.progress.queue.drop_first()
    &&& before.progress.fallen.subset_of(after.progress.fallen)
    &&& after.registry.isolation == before.registry.isolation
    &&& ({
        ||| {
            &&& after.registry.plugins@ == before.registry.plugins@
            &&& after.progress.loaded == before.progress.loaded
            &&& after.progress.failures.len() == before.progress.failures.len() + 1
            &&& after.progress.failures.drop_last() == before.progress.failures
            &&& after.progress.failures.last().name == manifest.name@
            &&& after.progress.fallen.contains(manifest.name@)
        }
        ||| {
            &&& after.registry.plugins@.len() == before.registry.plugins@.len() + 1
            &&& after.registry.plugins@.drop_last() == before.registry.plugins@
            &&& after.registry.plugins@.last().manifest == manifest
            &&& after.progress.loaded == before.progress.loaded.push(manifest.name@)
            &&& after.progress.failures == before.progress.failures
            &&& exists|rocks: Rocks| #[trigger]
                refused_early(
                    manifest,
                    before.registry.loaded().contains(manifest.name@),
                    before.progress.fallen,
                    before.registry.isolation,
                    rocks,
                ) is None
        }
    })
}

proof fn turn_of<
    I,
    E,
    R: Fn(&Manifest) -> Rocks,
    L: Fn(&Manifest) -> Listing,
    S: Fn(&Manifest, Placement, StateSource) -> Option<String>,
    B: Fn(&Registry<I, E>, &Manifest, Group, &Signer, &Option<DirectoryDigest>) -> Result<
        Built<I, E>,
        FailureReason,
    >,
>(works: Works<R, L, S, B>, before: Stage<I, E>, after: Stage<I, E>)
    requires
        tried(works, before, after),
    ensures
        turn(before, after),
{
    let manifest = before.progress.queue[0];
    let rocks = choose|rocks: Rocks| #[trigger]
        call_ensures(works.rocks, (&manifest,), rocks) && match refused_early(
            manifest,
            before.registry.loaded().contains(manifest.name@),
            before.progress.fallen,
            before.registry.isolation,
            rocks,
        ) {
            Some(reason) => {
                &&& after.registry == before.registry
                &&& after.progress == crate::loader::without_next(before.progress, reason)
            },
            None => exists|admission: Result<(Signer, Option<DirectoryDigest>), FailureReason>|
                #[trigger]
                ruled_by_files(before.registry, works.files, manifest, admission) && admitted_to(
                    works,
                    before,
                    admission,
                    after,
                ),
        };
    let early = refused_early(
        manifest,
        before.registry.loaded().contains(manifest.name@),
        before.progress.fallen,
        before.registry.isolation,
        rocks,
    );
    match early {
        Some(reason) => {
            assert(after.progress.failures.drop_last() =~= before.progress.failures);
        },
        None => {
            let admission = choose|admission: Result<(Signer, Option<DirectoryDigest>), FailureReason>|
                #[trigger]
                ruled_by_files(before.registry, works.files, manifest, admission) && admitted_to(
                    works,
                    before,
                    admission,
                    after,
                );
            match admission {
                Err(reason) => {
                    assert(after.progress.failures.drop_last() =~= before.progress.failures);
                },
                Ok((signer, digest)) => {
                    let (group, middle, built) = choose|
                        group: Group,
                        middle: Stage<I, E>,
                        built: Result<Built<I, E>, FailureReason>,
                    |
                        {
                            &&& #[trigger] placed(works.prepare, before, group, middle)
                            &&& call_ensures(
                                works.build,
                                (&middle.registry, &before.progress.queue[0], group, &signer, &digest),
                                built,
                            )
                            &&& #[trigger] concluded(middle, group, signer, digest, built, after)
                        };
                    match built {
                        Err(reason) => {
                            assert(after.progress.failures.drop_last()
                                =~= before.progress.failures);
                        },
                        Ok(made) => {
                            assert(after.registry.plugins@.drop_last()
                                =~= before.registry.plugins@);
                        },
                    }
                },
            }
        },
    }
}

/// How far a load has come after its first `i` plugins.
pub open spec fn so_far<I, E>(stages: Seq<Stage<I, E>>, i: int) -> bool {
    let first = stages[0];
    let here = stages[i];
    &&& i <= first.progress.queue.len()
    &&& here.progress.queue == first.progress.queue.skip(i)
    &&& first.progress.fallen.subset_of(here.progress.fallen)
    &&& here.registry.isolation == first.registry.isolation
    &&& plugin_names(here.registry.plugins@) == plugin_names(first.registry.plugins@)
        + here.progress.loaded
    &&& here.progress.loaded.len() + here.progress.failures.len()
        == first.progress.failures.len() + i
    &&& here.progress.failures.len() >= first.progress.failures.len()
    &&& forall|j: int|
        0 <= j < i ==> here.progress.fallen.contains(
            (#[trigger] first.progress.queue[j]).name@,
        ) || plugin_names(here.registry.plugins@).contains(first.progress.queue[j].name@)
}

pub proof fn comes_so_far<
    I,
    E,
    R: Fn(&Manifest) -> Rocks,
    L: Fn(&Manifest) -> Listing,
    S: Fn(&Manifest, Placement, StateSource) -> Option<String>,
    B: Fn(&Registry<I, E>, &Manifest, Group, &Signer, &Option<DirectoryDigest>) -> Result<
        Built<I, E>,
        FailureReason,
    >,
>(works: Works<R, L, S, B>, stages: Seq<Stage<I, E>>, i: int)
    requires
        follows(works, stages),
        stages.len() > 0,
        stages[0].progress.loaded.len() == 0,
        0 <= i < stages.len(),
    ensures
        so_far(stages, i),
    decreases i,
{
    let first = stages[0];
    let here = stages[i];
    if i == 0 {
        assert(first.progress.queue.skip(0) =~= first.progress.queue);
        assert(plugin_names(first.registry.plugins@) + first.progress.loaded =~= plugin_names(
            first.registry.plugins@,
        ));
    } else {
        comes_so_far(works, stages, i - 1);
        let last = stages[i - 1];
        assert(tried(works, stages[i - 1], stages[i - 1 + 1]));
        turn_of(works, last, here);
        let manifest = last.progress.queue[0];
        assert(manifest == first.progress.queue[i - 1]);
        assert(here.progress.queue =~= first.progress.queue.skip(i));
        let then = plugin_names(last.registry.plugins@);
        let now = plugin_names(here.registry.plugins@);
        if here.registry.plugins@ == last.registry.plugins@ && here.progress.loaded
            == last.progress.loaded {
        } else {
            assert(here.registry.plugins@ =~= last.registry.plugins@.push(
                here.registry.plugins@.last(),
            ));
            assert(now =~= then.push(manifest.name@));
            assert(now[then.len() as int] == manifest.name@);
            assert(now =~= plugin_names(first.registry.plugins@) + here.progress.loaded);
        }
        assert forall|j: int| 0 <= j < i implies here.progress.fallen.contains(
            (#[trigger] first.progress.queue[j]).name@,
        ) || now.contains(first.progress.queue[j].name@) by {
            let name = first.progress.queue[j].name@;
            if j < i - 1 {
                if then.contains(name) {
                    let p = choose|p: int| 0 <= p < then.len() && then[p] == name;
                    assert(now[p] == name);
                }
            }
        }
    }
}

/// A load leaves no plugin out: of those that were discovered, readable or not, under a name of
/// their own or not, each is counted once, as loaded or as failed; and what the registry holds
/// afterwards is what it held before, then what was loaded, in the order it was loaded.
pub proof fn a_load_accounts_for_every_plugin<
    I,
    E,
    R: Fn(&Manifest) -> Rocks,
    L: Fn(&Manifest) -> Listing,
    S: Fn(&Manifest, Placement, StateSource) -> Option<String>,
    B: Fn(&Registry<I, E>, &Manifest, Group, &Signer, &Option<DirectoryDigest>) -> Result<
        Built<I, E>,
        FailureReason,
    >,
>(
    works: Works<R, L, S, B>,
    stages: Seq<Stage<I, E>>,
    start: Registry<I, E>,
    manifests: Seq<Manifest>,
    unreadable: Seq<LoadFailure>,
    report: LoadReport,
    end: Registry<I, E>,
)
    requires
        load_comes_to(works, stages, start, manifests, unreadable, Ok(report), end),
    ensures
        report.loaded@.len() + report.failures@.len() == unreadable.len() + manifests.len(),
        report.failures@.len() >= unreadable.len(),
        plugin_names(end.plugins@) == plugin_names(start.plugins@) + text::texts(report.loaded@),
{
    let n = stages.len() - 1;
    comes_so_far(works, stages, n);
    resolve::order_leaves_nothing_out(manifests);
    assert(text::texts(report.loaded@).len() == report.loaded@.len());
    assert(failed(report.failures@).len() == report.failures@.len());
    assert(failed(unreadable).len() == unreadable.len());
}

proof fn left_out_has_fallen(ms: Seq<Manifest>, n: int, i: int)
    requires
        0 <= i < n <= ms.len(),
        unmet(ms, ms[i]) is Some,
    ensures
        exists|k: int|
            0 <= k < unmet_upto(ms, n).len() && (#[trigger] unmet_upto(ms, n)[k]).name
                == ms[i].name@,
    decreases n,
{
    let here = unmet_upto(ms, n);
    if i == n - 1 {
        assert(here[here.len() - 1].name == ms[i].name@);
    } else {
        left_out_has_fallen(ms, n - 1, i);
        let less = unmet_upto(ms, n - 1);
        let k = choose|k: int| 0 <= k < less.len() && (#[trigger] less[k]).name == ms[i].name@;
        assert(here[k] == less[k]);
    }
}

proof fn named_has_fallen(list: Seq<Failed>, k: int)
    requires
        0 <= k < list.len(),
    ensures
        failed_names(list).contains(list[k].name),
    decreases list.len(),
{
    if k < list.len() - 1 {
        named_has_fallen(list.drop_last(), k);
        assert(list.drop_last()[k] == list[k]);
    }
}

proof fn met_is_there(
    ms: Seq<Manifest>,
    dependencies: Seq<(String, crate::manifest::DependencySpec)>,
    from: int,
    d: int,
)
    requires
        unmet_from(ms, dependencies, from) is None,
        0 <= from <= d < dependencies.len(),
        !dependencies[d].1.may_be_absent(),
    ensures
        resolve::version_named(ms, dependencies[d].0@) is Some,
    decreases d - from,
{
    if from < d {
        met_is_there(ms, dependencies, from + 1, d);
    }
}

/// A plugin is built only when everything it requires is loaded: at the stage at which a load
/// adds a plugin to the registry, each dependency that may not be absent is already there.
pub proof fn requirements_are_loaded_first<
    I,
    E,
    R: Fn(&Manifest) -> Rocks,
    L: Fn(&Manifest) -> Listing,
    S: Fn(&Manifest, Placement, StateSource) -> Option<String>,
    B: Fn(&Registry<I, E>, &Manifest, Group, &Signer, &Option<DirectoryDigest>) -> Result<
        Built<I, E>,
        FailureReason,
    >,
>(
    works: Works<R, L, S, B>,
    stages: Seq<Stage<I, E>>,
    start: Registry<I, E>,
    manifests: Seq<Manifest>,
    unreadable: Seq<LoadFailure>,
    r: Result<LoadReport, RegistryError>,
    end: Registry<I, E>,
    i: int,
    d: int,
)
    requires
        load_comes_to(works, stages, start, manifests, unreadable, r, end),
        distinct_names(manifests),
        0 <= i < stages.len() - 1,
        stages[i + 1].registry.plugins@.len() > stages[i].registry.plugins@.len(),
        0 <= d < stages[i].progress.queue[0].dependencies@.len(),
        !stages[i].progress.queue[0].dependencies@[d].1.may_be_absent(),
    ensures
        stages[i].registry.loaded().contains(stages[i].progress.queue[0].dependencies@[d].0@),
{
    let ms = manifests;
    let first = stages[0];
    let here = stages[i];
    comes_so_far(works, stages, i);
    assert(tried(works, stages[i], stages[i + 1]));
    turn_of(works, here, stages[i + 1]);
    let manifest = here.progress.queue[0];
    assert(manifest == first.progress.queue[i]);
    let name = load_order(ms)[i];
    let dep = manifest.dependencies@[d].0@;
    // The plugin is one that could be ordered, under the name it is ordered by.
    let order = resolve::node_order(resolve::nodes(ms));
    resolve::firsts_hold(order, order.len() as int);
    assert(load_order(ms).contains(name));
    let c = choose|c: int| 0 <= c < order.len() && (#[trigger] order[c]) == name;
    assert(order.contains(name));
    resolve::ordered_is_node(resolve::nodes(ms), name);
    resolve::node_has_place(ms, name);
    resolve::place_holds(ms, name, ms.len() as int);
    assert(unmet(ms, manifest) is None);
    met_is_there(ms, manifest.dependencies@, 0, d);
    // What it requires has not failed.
    let rocks = choose|rocks: Rocks| #[trigger]
        refused_early(
            manifest,
            here.registry.loaded().contains(manifest.name@),
            here.progress.fallen,
            here.registry.isolation,
            rocks,
        ) is None;
    nothing_loads_over_a_failure(
        manifest,
        here.registry.loaded().contains(manifest.name@),
        here.progress.fallen,
        here.registry.isolation,
        rocks,
        d,
    );
    assert(!here.progress.fallen.contains(dep));
    assert(!first.progress.fallen.contains(dep));
    if resolve::dropped(ms, dep) {
        let k = choose|k: int|
            0 <= k < ms.len() && #[trigger] ms[k].name@ == dep && unmet(ms, ms[k]) is Some;
        left_out_has_fallen(ms, ms.len() as int, k);
        let list = unmet_upto(ms, ms.len() as int);
        let f = choose|f: int| 0 <= f < list.len() && (#[trigger] list[f]).name == ms[k].name@;
        let all = failed(unreadable) + order_failures(ms);
        let at = failed(unreadable).len() + f;
        assert(order_failures(ms)[f] == list[f]);
        assert(all[at] == list[f]);
        named_has_fallen(all, at);
    }
    assert(resolve::awaited(ms, dep));
    assert(manifest.dependencies.keys()[d] == dep);
    assert(declares(manifest, dep));
    dependencies_load_first(ms, i, dep);
    let j = choose|j: int| 0 <= j < i && #[trigger] load_order(ms)[j] == dep;
    // It stood earlier in the line, under that name.
    let earlier = first.progress.queue[j];
    assert(load_order(ms).contains(dep));
    let e = choose|e: int| 0 <= e < order.len() && (#[trigger] order[e]) == dep;
    assert(order.contains(dep));
    resolve::ordered_is_node(resolve::nodes(ms), dep);
    resolve::node_has_place(ms, dep);
    resolve::place_holds(ms, dep, ms.len() as int);
    assert(earlier.name@ == dep);
}

/// Where every plugin has a state of its own, nothing that declares a dependency loads: values
/// cannot cross from one state to another.
pub proof fn isolated_plugins_stand_alone<
    I,
    E,
    R: Fn(&Manifest) -> Rocks,
    L: Fn(&Manifest) -> Listing,
    S: Fn(&Manifest, Placement, StateSource) -> Option<String>,
    B: Fn(&Registry<I, E>, &Manifest, Group, &Signer, &Option<DirectoryDigest>) -> Result<
        Built<I, E>,
        FailureReason,
    >,
>(
    works: Works<R, L, S, B>,
    stages: Seq<Stage<I, E>>,
    start: Registry<I, E>,
    manifests: Seq<Manifest>,
    unreadable: Seq<LoadFailure>,
    r: Result<LoadReport, RegistryError>,
    end: Registry<I, E>,
    i: int,
)
    requires
        load_comes_to(works, stages, start, manifests, unreadable, r, end),
        start.isolation is PerPlugin,
        0 <= i < stages.len() - 1,
        stages[i + 1].registry.plugins@.len() > stages[i].registry.plugins@.len(),
    ensures
        stages[i + 1].registry.plugins@.last().manifest == stages[i].progress.queue[0],
        stages[i].progress.queue[0].dependencies@.len() == 0,
{
    comes_so_far(works, stages, i);
    assert(tried(works, stages[i], stages[i + 1]));
    turn_of(works, stages[i], stages[i + 1]);
}

/// Where a stage of a load has more plugins than the one before, it has one more: the plugin that
/// the load had come to.
pub proof fn adds_the_next<
    I,
    E,
    R: Fn(&Manifest) -> Rocks,
    L: Fn(&Manifest) -> Listing,
    S: Fn(&Manifest, Placement, StateSource) -> Option<String>,
    B: Fn(&Registry<I, E>, &Manifest, Group, &Signer, &Option<DirectoryDigest>) -> Result<
        Built<I, E>,
        FailureReason,
    >,
>(works: Works<R, L, S, B>, stages: Seq<Stage<I, E>>, i: int)
    requires
        follows(works, stages),
        0 <= i < stages.len() - 1,
        stages[i + 1].registry.plugins@.len() > stages[i].registry.plugins@.len(),
    ensures
        stages[i].progress.queue.len() > 0,
        stages[i + 1].registry.plugins@.len() == stages[i].registry.plugins@.len() + 1,
        stages[i + 1].registry.plugins@.drop_last() == stages[i].registry.plugins@,
        stages[i + 1].registry.plugins@.last().manifest == stages[i].progress.queue[0],
{
    assert(tried(works, stages[i], stages[i + 1]));
    turn_of(works, stages[i], stages[i + 1]);
}

} // verus!
