//! What holds of each turn of a load: what it adds or reports, and which group it places a plugin
//! in.

use crate::failure::{FailureReason, LoadFailure, RegistryError, Why};
use crate::load::{placement, refused_early, Placement, Rocks};
use crate::loader::{
    admitted_to, concluded, follows, load_comes_to, placed, ruled_by_files, source_of, state_taken,
    tried, Built, Stage, Works,
};
use crate::manifest::Manifest;
use crate::names::NameMap;
use crate::refusal_laws::group_is_listed;
use crate::registry::{Group, LoadReport, Plugin, Registry, StateSource};
use crate::signature::{DirectoryDigest, Signer};
use crate::trust::Listing;
use vstd::prelude::*;

verus! {

/// Whether a reason was heard of a plugin: it was refused before it was looked at, or by the
/// registry on its files, or by what builds it.
pub open spec fn was_heard<
    I,
    E,
    R: Fn(&Manifest) -> Rocks,
    L: Fn(&Manifest) -> Listing,
    S: Fn(&Manifest, Placement, StateSource) -> Option<String>,
    B: Fn(&Registry<I, E>, &Manifest, Group, &Signer, &Option<DirectoryDigest>) -> Result<
        Built<I, E>,
        FailureReason,
    >,
>(works: Works<R, L, S, B>, before: Stage<I, E>, why: Why) -> bool {
    let manifest = before.progress.queue[0];
    ||| exists|rocks: Rocks| #[trigger]
        call_ensures(works.rocks, (&manifest,), rocks) && refused_early(
            manifest,
            before.registry.loaded().contains(manifest.name@),
            before.progress.fallen,
            before.registry.isolation,
            rocks,
        ) == Some(why)
    ||| exists|reason: FailureReason|
        #[trigger] ruled_by_files(before.registry, works.files, manifest, Err(reason)) && reason@
            == why
    ||| exists|
        registry: Registry<I, E>,
        group: Group,
        signer: Signer,
        digest: Option<DirectoryDigest>,
        reason: FailureReason,
    |
        #[trigger] call_ensures(
            works.build,
            (&registry, &manifest, group, &signer, &digest),
            Err::<Built<I, E>, FailureReason>(reason),
        ) && reason@ == why
}

/// Whether a turn reports its plugin: one failure is added, with the plugin's name, where it stands
/// and a reason that was heard, its name counts as failed, and no plugin is added.
pub open spec fn reports<
    I,
    E,
    R: Fn(&Manifest) -> Rocks,
    L: Fn(&Manifest) -> Listing,
    S: Fn(&Manifest, Placement, StateSource) -> Option<String>,
    B: Fn(&Registry<I, E>, &Manifest, Group, &Signer, &Option<DirectoryDigest>) -> Result<
        Built<I, E>,
        FailureReason,
    >,
>(works: Works<R, L, S, B>, before: Stage<I, E>, after: Stage<I, E>) -> bool {
    let manifest = before.progress.queue[0];
    let failures = after.progress.failures;
    &&& after.registry.plugins@ == before.registry.plugins@
    &&& after.progress.loaded == before.progress.loaded
    &&& after.progress.fallen == before.progress.fallen.insert(manifest.name@)
    &&& failures.len() == before.progress.failures.len() + 1
    &&& failures.drop_last() == before.progress.failures
    &&& failures.last().name == manifest.name@
    &&& failures.last().dir == manifest.dir@
    &&& was_heard(works, before, failures.last().reason)
}

/// Whether a turn adds its plugin, behind the others, and nothing is reported of it.
pub open spec fn adds<I, E>(before: Stage<I, E>, after: Stage<I, E>) -> bool {
    let manifest = before.progress.queue[0];
    &&& after.registry.plugins@.len() == before.registry.plugins@.len() + 1
    &&& after.registry.plugins@.drop_last() == before.registry.plugins@
    &&& after.registry.plugins@.last().manifest == manifest
    &&& after.progress.loaded == before.progress.loaded.push(manifest.name@)
    &&& after.progress.fallen == before.progress.fallen
    &&& after.progress.failures == before.progress.failures
}

/// Whether a turn leaves alone what is not its: the rules of the registry, the components, and the
/// rest of the queue.
pub open spec fn leaves_the_rest<I, E>(before: Stage<I, E>, after: Stage<I, E>) -> bool {
    &&& before.progress.queue.len() > 0
    &&& after.progress.queue == before.progress.queue.drop_first()
    &&& after.progress.components == before.progress.components
    &&& after.registry.isolation == before.registry.isolation
    &&& after.registry.policy == before.registry.policy
    &&& after.registry.verifier == before.registry.verifier
    &&& after.registry.require_signatures == before.registry.require_signatures
    &&& after.registry.revocations == before.registry.revocations
    &&& after.registry.lockfile == before.registry.lockfile
}

/// Whether a turn places its plugin by its component: a plugin that is added stands in the group of
/// its component, which is a new one where the component had none.
pub open spec fn places<I, E>(before: Stage<I, E>, after: Stage<I, E>) -> bool {
    let name = before.progress.queue[0].name@;
    let states = before.progress.states;
    let group = after.registry.plugins@.last().group;
    let added = after.registry.plugins@.len() > before.registry.plugins@.len();
    match placement(before.progress.components, states, name) {
        Placement::With(shared) => {
            &&& after.progress.states == states
            &&& after.registry.next_group == before.registry.next_group
            &&& added ==> group == shared
        },
        Placement::First(component) => {
            ||| {
                &&& !added
                &&& after.progress.states == states
                &&& after.registry.next_group == before.registry.next_group
            }
            ||| {
                &&& after.progress.states == states.push(
                    (component, Group(before.registry.next_group)),
                )
                &&& before.registry.next_group < u64::MAX ==> after.registry.next_group
                    == before.registry.next_group + 1
                &&& added ==> group == Group(before.registry.next_group)
            }
        },
        Placement::Alone => {
            &&& after.progress.states == states
            &&& after.registry.next_group == before.registry.next_group
            &&& added ==> group == Group(0)
        },
    }
}

/// Each turn of a load either adds its plugin or reports it, leaves everything else alone, and
/// places what it adds by its component.
pub proof fn a_turn_adds_or_reports<
    I,
    E,
    R: Fn(&Manifest) -> Rocks,
    L: Fn(&Manifest) -> Listing,
    S: Fn(&Manifest, Placement, StateSource) -> Option<String>,
    B: Fn(&Registry<I, E>, &Manifest, Group, &Signer, &Option<DirectoryDigest>) -> Result<
        Built<I, E>,
        FailureReason,
    >,
>(works: Works<R, L, S, B>, before: Stage<I, E>, after: Stage<I, E>)
    requires
        tried(works, before, after),
    ensures
        leaves_the_rest(before, after),
        adds(before, after) || reports(works, before, after),
        places(before, after),
{
    let manifest = before.progress.queue[0];
    let rocks = choose|rocks: Rocks| #[trigger]
        call_ensures(works.rocks, (&manifest,), rocks) && match refused_early(
            manifest,
            before.registry.loaded().contains(manifest.name@),
            before.progress.fallen,
            before.registry.isolation,
            rocks,
        ) {
            Some(reason) => {
                &&& after.registry == before.registry
                &&& after.progress == crate::loader::without_next(before.progress, reason)
            },
            None => exists|admission: Result<(Signer, Option<DirectoryDigest>), FailureReason>|
                #[trigger]
                ruled_by_files(before.registry, works.files, manifest, admission) && admitted_to(
                    works,
                    before,
                    admission,
                    after,
                ),
        };
    let early = refused_early(
        manifest,
        before.registry.loaded().contains(manifest.name@),
        before.progress.fallen,
        before.registry.isolation,
        rocks,
    );
    let old_failures = before.progress.failures;
    let failures = after.progress.failures;
    if early is Some {
        assert(failures.drop_last() =~= old_failures);
        assert(was_heard(works, before, early->0));
        assert(reports(works, before, after));
    } else {
        let admission = choose|
            admission: Result<(Signer, Option<DirectoryDigest>), FailureReason>,
        |
            #[trigger]
            ruled_by_files(before.registry, works.files, manifest, admission) && admitted_to(
                works,
                before,
                admission,
                after,
            );
        match admission {
            Err(reason) => {
                assert(failures.drop_last() =~= old_failures);
                assert(ruled_by_files(before.registry, works.files, manifest, Err(reason)));
                assert(was_heard(works, before, reason@));
                assert(reports(works, before, after));
            },
            Ok((signer, digest)) => {
                let (group, middle, built) = choose|
                    group: Group,
                    middle: Stage<I, E>,
                    built: Result<Built<I, E>, FailureReason>,
                |
                    {
                        &&& #[trigger] placed(works.prepare, before, group, middle)
                        &&& call_ensures(
                            works.build,
                            (&middle.registry, &before.progress.queue[0], group, &signer, &digest),
                            built,
                        )
                        &&& #[trigger] concluded(middle, group, signer, digest, built, after)
                    };
                assert(middle.progress.queue == before.progress.queue);
                assert(middle.progress.failures == before.progress.failures);
                match built {
                    Err(reason) => {
                        assert(failures.drop_last() =~= old_failures);
                        assert(call_ensures(
                            works.build,
                            (&middle.registry, &manifest, group, &signer, &digest),
                            Err::<Built<I, E>, FailureReason>(reason),
                        ));
                        assert(was_heard(works, before, reason@));
                        assert(reports(works, before, after));
                    },
                    Ok(_) => {
                        assert(after.registry.plugins@.drop_last() =~= before.registry.plugins@);
                        assert(adds(before, after));
                    },
                }
            },
        }
    }
}

/// Whether groups are one for each component: no two states have one component or one group, each
/// is older than the next that will be made, and each plugin that was added stands in the group of
/// its component.
pub open spec fn is_grouped<I, E>(stage: Stage<I, E>, map: NameMap<usize>, first: int) -> bool {
    let states = stage.progress.states;
    let plugins = stage.registry.plugins@;
    &&& stage.progress.components == Some(map)
    &&& 0 <= first <= plugins.len()
    &&& forall|i: int|
        0 <= i < states.len() ==> (#[trigger] states[i]).1.0 < stage.registry.next_group
    &&& forall|i: int, j: int|
        0 <= i < j < states.len() ==> (#[trigger] states[i]).0 != (#[trigger] states[j]).0
            && states[i].1 != states[j].1
    &&& forall|k: int|
        first <= k < plugins.len() ==> stands_with_its_component(
            states,
            map,
            #[trigger] plugins[k],
        )
}

/// Whether a plugin stands in the group of its component, where it has one.
pub open spec fn stands_with_its_component<I, E>(
    states: Seq<(usize, Group)>,
    map: NameMap<usize>,
    plugin: Plugin<I, E>,
) -> bool {
    map.at(plugin.manifest.name@) matches Some(component) ==> exists|i: int|
        0 <= i < states.len() && #[trigger] states[i] == (component, plugin.group)
}

proof fn stays_grouped<
    I,
    E,
    R: Fn(&Manifest) -> Rocks,
    L: Fn(&Manifest) -> Listing,
    S: Fn(&Manifest, Placement, StateSource) -> Option<String>,
    B: Fn(&Registry<I, E>, &Manifest, Group, &Signer, &Option<DirectoryDigest>) -> Result<
        Built<I, E>,
        FailureReason,
    >,
>(
    works: Works<R, L, S, B>,
    before: Stage<I, E>,
    after: Stage<I, E>,
    map: NameMap<usize>,
    first: int,
)
    requires
        tried(works, before, after),
        is_grouped(before, map, first),
        before.registry.next_group < u64::MAX,
    ensures
        is_grouped(after, map, first),
        after.registry.next_group <= before.registry.next_group + 1,
{
    a_turn_adds_or_reports(works, before, after);
    let name = before.progress.queue[0].name@;
    let old_states = before.progress.states;
    let states = after.progress.states;
    let old_plugins = before.registry.plugins@;
    let plugins = after.registry.plugins@;
    let place = placement(before.progress.components, old_states, name);
    match map.at(name) {
        Some(component) => {
            group_is_listed(old_states, component);
        },
        None => {},
    }
    assert(states == old_states || states.len() == old_states.len() + 1);
    assert forall|i: int| 0 <= i < old_states.len() implies #[trigger] states[i] == old_states[i] by {}
    assert forall|i: int, j: int| 0 <= i < j < states.len() implies (#[trigger] states[i]).0 != (
    #[trigger] states[j]).0 && states[i].1 != states[j].1 by {
        assert(states[i] == old_states[i]);
        if j < old_states.len() {
            assert(states[j] == old_states[j]);
        } else {
            assert(place is First);
            assert(old_states[i].1.0 < before.registry.next_group);
        }
    }
    assert forall|i: int| 0 <= i < states.len() implies (#[trigger] states[i]).1.0
        < after.registry.next_group by {
        if i < old_states.len() {
            assert(states[i] == old_states[i]);
        }
    }
    assert forall|k: int| first <= k < plugins.len() implies stands_with_its_component(
        states,
        map,
        #[trigger] plugins[k],
    ) by {
        if k < old_plugins.len() {
            assert(plugins[k] == old_plugins[k]) by {
                if plugins.len() > old_plugins.len() {
                    assert(plugins.drop_last()[k] == plugins[k]);
                }
            }
            match map.at(plugins[k].manifest.name@) {
                Some(component) => {
                    let i = choose|i: int|
                        0 <= i < old_states.len() && #[trigger] old_states[i] == (
                            component,
                            plugins[k].group,
                        );
                    assert(states[i] == old_states[i]);
                },
                None => {},
            }
        } else {
            assert(plugins[k] == plugins.last());
            match map.at(name) {
                Some(component) => {
                    match place {
                        Placement::With(shared) => {
                            let i = choose|i: int|
                                0 <= i < old_states.len() && #[trigger] old_states[i] == (
                                    component,
                                    shared,
                                );
                            assert(states[i] == (component, plugins[k].group));
                        },
                        Placement::First(_) => {
                            let i = old_states.len() as int;
                            assert(states[i] == (component, plugins[k].group));
                        },
                        Placement::Alone => {},
                    }
                },
                None => {},
            }
        }
    }
}

proof fn grouped_upto<
    I,
    E,
    R: Fn(&Manifest) -> Rocks,
    L: Fn(&Manifest) -> Listing,
    S: Fn(&Manifest, Placement, StateSource) -> Option<String>,
    B: Fn(&Registry<I, E>, &Manifest, Group, &Signer, &Option<DirectoryDigest>) -> Result<
        Built<I, E>,
        FailureReason,
    >,
>(works: Works<R, L, S, B>, stages: Seq<Stage<I, E>>, map: NameMap<usize>, n: int)
    requires
        follows(works, stages),
        0 <= n < stages.len(),
        stages[0].progress.components == Some(map),
        stages[0].progress.states.len() == 0,
        stages[0].registry.next_group + stages.len() <= u64::MAX,
    ensures
        is_grouped(stages[n], map, stages[0].registry.plugins@.len() as int),
        stages[n].registry.next_group <= stages[0].registry.next_group + n,
    decreases n,
{
    if n > 0 {
        grouped_upto(works, stages, map, n - 1);
        assert(tried(works, stages[n - 1], stages[n - 1 + 1]));
        stays_grouped(
            works,
            stages[n - 1],
            stages[n],
            map,
            stages[0].registry.plugins@.len() as int,
        );
    }
}

/// Where plugins are grouped, two that a load adds stand in one group exactly when they are of one
/// component, as long as there are numbers for groups.
pub proof fn one_group_for_one_component<
    I,
    E,
    R: Fn(&Manifest) -> Rocks,
    L: Fn(&Manifest) -> Listing,
    S: Fn(&Manifest, Placement, StateSource) -> Option<String>,
    B: Fn(&Registry<I, E>, &Manifest, Group, &Signer, &Option<DirectoryDigest>) -> Result<
        Built<I, E>,
        FailureReason,
    >,
>(
    works: Works<R, L, S, B>,
    stages: Seq<Stage<I, E>>,
    map: NameMap<usize>,
    n: int,
    a: int,
    b: int,
)
    requires
        follows(works, stages),
        0 <= n < stages.len(),
        stages[0].progress.components == Some(map),
        stages[0].progress.states.len() == 0,
        stages[0].registry.next_group + stages.len() <= u64::MAX,
        stages[0].registry.plugins@.len() <= a < stages[n].registry.plugins@.len(),
        stages[0].registry.plugins@.len() <= b < stages[n].registry.plugins@.len(),
        map.at(stages[n].registry.plugins@[a].manifest.name@) is Some,
        map.at(stages[n].registry.plugins@[b].manifest.name@) is Some,
    ensures
        stages[n].registry.plugins@[a].group == stages[n].registry.plugins@[b].group <==> map.at(
            stages[n].registry.plugins@[a].manifest.name@,
        ) == map.at(stages[n].registry.plugins@[b].manifest.name@),
{
    grouped_upto(works, stages, map, n);
    let states = stages[n].progress.states;
    let plugins = stages[n].registry.plugins@;
    let x = map.at(plugins[a].manifest.name@)->0;
    let y = map.at(plugins[b].manifest.name@)->0;
    assert(stands_with_its_component(states, map, plugins[a]));
    assert(stands_with_its_component(states, map, plugins[b]));
    let i = choose|i: int| 0 <= i < states.len() && #[trigger] states[i] == (x, plugins[a].group);
    let j = choose|j: int| 0 <= j < states.len() && #[trigger] states[j] == (y, plugins[b].group);
    if i < j {
        assert(states[i].0 != states[j].0);
    } else if j < i {
        assert(states[j].0 != states[i].0);
    }
}

/// Only a shared state is the host's own, and it is configured once: by the first plugin that comes
/// to it, and by none after that. Every other plugin gets a fresh one.
pub proof fn a_shared_state_is_configured_once<I, E>(was: Registry<I, E>, now: Registry<I, E>)
    requires
        state_taken(now, was),
    ensures
        was.isolation is Shared <==> source_of(was) is Host,
        was.isolation is Shared ==> source_of(was) == (StateSource::Host {
            configure: !was.shared_configured,
        }),
        was.isolation is Shared ==> source_of(now) == (StateSource::Host { configure: false }),
        !(was.isolation is Shared) ==> source_of(now) is Fresh && now.shared_configured
            == was.shared_configured,
        now.plugins@ == was.plugins@,
{
}

/// A load is cut short only where the host could not prepare a state for the plugin that it had
/// come to, and says what the host said; otherwise it goes through every plugin.
pub proof fn a_load_is_cut_short_only_without_a_state<
    I,
    E,
    R: Fn(&Manifest) -> Rocks,
    L: Fn(&Manifest) -> Listing,
    S: Fn(&Manifest, Placement, StateSource) -> Option<String>,
    B: Fn(&Registry<I, E>, &Manifest, Group, &Signer, &Option<DirectoryDigest>) -> Result<
        Built<I, E>,
        FailureReason,
    >,
>(
    works: Works<R, L, S, B>,
    stages: Seq<Stage<I, E>>,
    start: Registry<I, E>,
    manifests: Seq<Manifest>,
    unreadable: Seq<LoadFailure>,
    r: Result<LoadReport, RegistryError>,
    end: Registry<I, E>,
)
    requires
        load_comes_to(works, stages, start, manifests, unreadable, r, end),
    ensures
        r is Ok ==> stages.last().progress.queue.len() == 0,
        r is Err ==> stages.last().progress.queue.len() > 0 && exists|
            place: Placement,
            source: StateSource,
            said: String,
        |
            #[trigger] call_ensures(
                works.prepare,
                (&stages.last().progress.queue[0], place, source),
                Some(said),
            ) && (r matches Err(RegistryError::Lua(message)) && message@ == said@),
        end == stages.last().registry,
{
    if r is Err {
        let message = r->Err_0->Lua_0;
        let stage = stages.last();
        let (place, said) = choose|place: Placement, said: String|
            {
                &&& stage.progress.queue.len() > 0
                &&& place == placement(
                    stage.progress.components,
                    stage.progress.states,
                    stage.progress.queue[0].name@,
                )
                &&& #[trigger] call_ensures(
                    works.prepare,
                    (&stage.progress.queue[0], place, source_of(stage.registry)),
                    Some(said),
                )
                &&& said@ == message@
            };
        assert(call_ensures(
            works.prepare,
            (&stages.last().progress.queue[0], place, source_of(stage.registry)),
            Some(said),
        ));
    }
}

} // verus!
