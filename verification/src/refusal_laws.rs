//! What holds of each plugin that a load comes to: why it is refused, in which state it runs, and
//! that what is kept of it is what was built.

use crate::components::{chain, connected, last_place};
use crate::dependency_laws::is_marked_optional;
use crate::failure::{FailureReason, Failed, Why};
use crate::load::{
    failed_dependency, failed_names, group_of, placement, refused_early, rock_fault,
    rock_fault_from, Placement, RockLookup, Rocks,
};
use crate::loader::{
    admitted_to, concluded, placed, ruled_by_files, tried, without_next, Built, Stage, Works,
};
use crate::manifest::Manifest;
use crate::names::NameMap;
use crate::registry::{Group, Isolation, Plugin, Registry, StateSource};
use crate::signature::{DirectoryDigest, Signer};
use crate::trust::{ruled_on, Listing};
use vstd::prelude::*;

verus! {

/// Whether a tree holds a rock at a version that the requirement on it allows.
pub open spec fn is_had(lookup: RockLookup) -> bool {
    lookup.required is Ok && lookup.found is Some && lookup.satisfied
}

/// Whether every rock a manifest declares can be had.
pub open spec fn rocks_are_had(manifest: Manifest, rocks: Rocks) -> bool {
    manifest.rocks@.len() == 0 || (rocks matches Rocks::Tree(lookups) && forall|i: int|
        0 <= i < manifest.rocks@.len() && i < lookups@.len() ==> is_had(#[trigger] lookups@[i]))
}

/// Whether a reason tells truly why a rock cannot be had.
pub open spec fn tells_of_rocks(manifest: Manifest, rocks: Rocks, why: Why) -> bool {
    match rocks {
        Rocks::Tree(lookups) => exists|i: int|
            {
                &&& 0 <= i < manifest.rocks@.len()
                &&& i < lookups@.len()
                &&& !is_had(#[trigger] lookups@[i])
                &&& forall|j: int| 0 <= j < i ==> is_had(#[trigger] lookups@[j])
                &&& match why {
                    Why::Rocks(message) => lookups@[i].required matches Err(said) && said@
                        == message,
                    Why::MissingRock { name, required } => {
                        &&& name == manifest.rocks@[i].0@
                        &&& lookups@[i].required matches Ok(read)
                        &&& read@ == required
                        &&& lookups@[i].found is None
                    },
                    Why::IncompatibleRock { name, required, found } => {
                        &&& name == manifest.rocks@[i].0@
                        &&& lookups@[i].required matches Ok(read)
                        &&& read@ == required
                        &&& lookups@[i].found matches Some(version)
                        &&& version@ == found
                        &&& !lookups@[i].satisfied
                    },
                    _ => false,
                }
            },
        _ => why is Rocks,
    }
}

proof fn rocks_from(manifest: Manifest, lookups: Vec<RockLookup>, from: int)
    requires
        0 <= from <= manifest.rocks@.len(),
        forall|j: int| 0 <= j < from && j < lookups@.len() ==> is_had(#[trigger] lookups@[j]),
    ensures
        rock_fault_from(manifest.rocks@, lookups@, from) is None <==> forall|i: int|
            0 <= i < manifest.rocks@.len() && i < lookups@.len() ==> is_had(#[trigger] lookups@[i]),
        rock_fault_from(manifest.rocks@, lookups@, from) matches Some(why) ==> tells_of_rocks(
            manifest,
            Rocks::Tree(lookups),
            why,
        ),
    decreases manifest.rocks@.len() - from,
{
    if from < manifest.rocks@.len() && from < lookups@.len() {
        if is_had(lookups@[from]) {
            rocks_from(manifest, lookups, from + 1);
        } else {
            assert(!is_had(lookups@[from]));
        }
    }
}

/// A plugin is refused for its rocks exactly when one of them cannot be had: the first such is
/// named, with the requirement and what was found.
pub proof fn refused_when_a_rock_is_missing(manifest: Manifest, rocks: Rocks)
    ensures
        rock_fault(manifest, rocks) is None <==> rocks_are_had(manifest, rocks),
        rock_fault(manifest, rocks) matches Some(why) ==> tells_of_rocks(manifest, rocks, why),
{
    match rocks {
        Rocks::Tree(lookups) => {
            rocks_from(manifest, lookups, 0);
        },
        _ => {},
    }
}

/// Whether a dependency that may not be absent is among names that failed.
pub open spec fn needs_a_failed_one(manifest: Manifest, fallen: Set<Seq<char>>, d: int) -> bool {
    &&& 0 <= d < manifest.dependencies@.len()
    &&& !is_marked_optional(manifest.dependencies@[d].1)
    &&& fallen.contains(manifest.dependencies@[d].0@)
}

proof fn failed_from(manifest: Manifest, fallen: Set<Seq<char>>, from: int)
    requires
        0 <= from <= manifest.dependencies@.len(),
        forall|d: int| 0 <= d < from ==> !needs_a_failed_one(manifest, fallen, d),
    ensures
        match failed_dependency(manifest.dependencies@, fallen, from) {
            Some(name) => exists|d: int|
                #[trigger] needs_a_failed_one(manifest, fallen, d) && manifest.dependencies@[d].0@
                    == name && forall|e: int| 0 <= e < d ==> !needs_a_failed_one(manifest, fallen, e),
            None => forall|d: int| !(#[trigger] needs_a_failed_one(manifest, fallen, d)),
        },
    decreases manifest.dependencies@.len() - from,
{
    if from < manifest.dependencies@.len() {
        if needs_a_failed_one(manifest, fallen, from) {
        } else {
            failed_from(manifest, fallen, from + 1);
        }
    }
}

/// Whether nothing speaks against trying a plugin: its name is free, nothing it requires has
/// failed, it depends on nothing where no state is shared, and its rocks can be had.
pub open spec fn may_be_tried(
    manifest: Manifest,
    registered: bool,
    fallen: Set<Seq<char>>,
    isolation: Isolation,
    rocks: Rocks,
) -> bool {
    &&& !registered
    &&& forall|d: int| !(#[trigger] needs_a_failed_one(manifest, fallen, d))
    &&& isolation is PerPlugin ==> manifest.dependencies@.len() == 0
    &&& rocks_are_had(manifest, rocks)
}

/// A plugin is tried exactly when nothing speaks against it, and otherwise the reason is true:
/// a name that is taken, a requirement that failed, a dependency that no state could carry, or a
/// rock that cannot be had.
pub proof fn refused_for_a_true_reason(
    manifest: Manifest,
    registered: bool,
    fallen: Set<Seq<char>>,
    isolation: Isolation,
    rocks: Rocks,
)
    ensures
        refused_early(manifest, registered, fallen, isolation, rocks) is None <==> may_be_tried(
            manifest,
            registered,
            fallen,
            isolation,
            rocks,
        ),
        match refused_early(manifest, registered, fallen, isolation, rocks) {
            Some(Why::Manifest(said)) => registered && said
                == "another plugin is already registered as `"@ + manifest.name@ + "`"@,
            Some(Why::DependencyFailed(name)) => !registered && exists|d: int|
                #[trigger] needs_a_failed_one(manifest, fallen, d) && manifest.dependencies@[d].0@
                    == name,
            Some(Why::CrossStateDependency(name)) => {
                &&& !registered
                &&& isolation is PerPlugin
                &&& manifest.dependencies@.len() > 0
                &&& name == manifest.dependencies@[0].0@
                &&& forall|d: int| !(#[trigger] needs_a_failed_one(manifest, fallen, d))
            },
            Some(why) => {
                &&& !registered
                &&& forall|d: int| !(#[trigger] needs_a_failed_one(manifest, fallen, d))
                &&& isolation is PerPlugin ==> manifest.dependencies@.len() == 0
                &&& tells_of_rocks(manifest, rocks, why)
            },
            None => true,
        },
{
    failed_from(manifest, fallen, 0);
    refused_when_a_rock_is_missing(manifest, rocks);
}

/// The names that failed are those of the failures.
pub proof fn failed_names_are_of_failures(list: Seq<Failed>, name: Seq<char>)
    ensures
        failed_names(list).contains(name) <==> exists|i: int|
            0 <= i < list.len() && (#[trigger] list[i]).name == name,
    decreases list.len(),
{
    if list.len() > 0 {
        let less = list.drop_last();
        failed_names_are_of_failures(less, name);
        if exists|i: int| 0 <= i < less.len() && (#[trigger] less[i]).name == name {
            let i = choose|i: int| 0 <= i < less.len() && (#[trigger] less[i]).name == name;
            assert(list[i].name == name);
        }
        if exists|i: int| 0 <= i < list.len() && (#[trigger] list[i]).name == name {
            let i = choose|i: int| 0 <= i < list.len() && (#[trigger] list[i]).name == name;
            if i < less.len() {
                assert(less[i].name == name);
            }
        }
        if list.last().name == name {
            assert(list[list.len() - 1].name == name);
        }
    }
}

/// The group of a component is one that is listed for it, and there is none exactly where none is.
pub proof fn group_is_listed(states: Seq<(usize, Group)>, component: usize)
    ensures
        match group_of(states, component) {
            Some(group) => exists|i: int|
                {
                    &&& 0 <= i < states.len()
                    &&& (#[trigger] states[i]) == (component, group)
                    &&& forall|j: int| 0 <= j < i ==> (#[trigger] states[j]).0 != component
                },
            None => forall|i: int| 0 <= i < states.len() ==> (#[trigger] states[i]).0 != component,
        },
    decreases states.len(),
{
    if states.len() > 0 && states[0].0 != component {
        let rest = states.drop_first();
        group_is_listed(rest, component);
        match group_of(rest, component) {
            Some(group) => {
                let i = choose|i: int|
                    {
                        &&& 0 <= i < rest.len()
                        &&& (#[trigger] rest[i]) == (component, group)
                        &&& forall|j: int| 0 <= j < i ==> (#[trigger] rest[j]).0 != component
                    };
                assert(states[i + 1] == (component, group));
                assert forall|j: int| 0 <= j < i + 1 implies (#[trigger] states[j]).0 != component by {
                    if j > 0 {
                        assert(rest[j - 1].0 != component);
                    }
                }
            },
            None => {
                assert forall|i: int| 0 <= i < states.len() implies (#[trigger] states[i]).0
                    != component by {
                    if i > 0 {
                        assert(rest[i - 1].0 != component);
                    }
                }
            },
        }
    } else if states.len() > 0 {
        assert(states[0] == (component, states[0].1));
    }
}

/// Where groups share states, two plugins of one component are placed together, whichever comes
/// first, and two of different components never; where they do not, each is placed alone.
pub proof fn components_decide_the_place(
    components: Option<NameMap<usize>>,
    states: Seq<(usize, Group)>,
    x: Seq<char>,
    y: Seq<char>,
)
    ensures
        components is None ==> placement(components, states, x) is Alone,
        components matches Some(map) ==> {
            &&& placement(components, states, x) is Alone <==> map.at(x) is None
            &&& map.at(x) is Some && map.at(x) == map.at(y) ==> placement(components, states, x)
                == placement(components, states, y)
            &&& match placement(components, states, x) {
                Placement::First(component) => map.at(x) == Some(component) && forall|i: int|
                    0 <= i < states.len() ==> (#[trigger] states[i]).0 != component,
                Placement::With(group) => map.at(x) matches Some(component) && exists|i: int|
                    0 <= i < states.len() && #[trigger] states[i] == (component, group),
                Placement::Alone => true,
            }
        },
{
    match components {
        Some(map) => match map.at(x) {
            Some(component) => {
                group_is_listed(states, component);
            },
            None => {},
        },
        None => {},
    }
}

proof fn last_place_stands(ms: Seq<Manifest>, name: Seq<char>)
    ensures
        match last_place(ms, name) {
            Some(i) => crate::dependency_laws::stands_for(ms, name, i),
            None => forall|i: int| 0 <= i < ms.len() ==> (#[trigger] ms[i]).name@ != name,
        },
    decreases ms.len(),
{
    if ms.len() > 0 && ms.last().name@ != name {
        last_place_stands(ms.drop_last(), name);
        match last_place(ms, name) {
            Some(i) => {
                assert forall|j: int| i < j < ms.len() implies (#[trigger] ms[j]).name@ != name by {
                    if j < ms.len() - 1 {
                        assert(ms.drop_last()[j].name@ != name);
                    }
                }
            },
            None => {
                assert forall|i: int| 0 <= i < ms.len() implies (#[trigger] ms[i]).name@ != name by {
                    if i < ms.len() - 1 {
                        assert(ms.drop_last()[i].name@ != name);
                    }
                }
            },
        }
    }
}

/// A dependency, optional or not, binds both ends: where a plugin declares another that is there,
/// the two are connected, and have to share a state.
pub proof fn a_dependency_connects(ms: Seq<Manifest>, a: int, d: int, b: int)
    requires
        0 <= a < ms.len(),
        0 <= d < ms[a].dependencies@.len(),
        crate::dependency_laws::stands_for(ms, ms[a].dependencies@[d].0@, b),
    ensures
        connected(ms, a, b),
        connected(ms, b, a),
{
    let name = ms[a].dependencies@[d].0@;
    last_place_stands(ms, name);
    match last_place(ms, name) {
        Some(i) => {
            if i < b {
                assert(ms[b].name@ != name);
            } else if b < i {
                assert(ms[i].name@ != name);
            }
        },
        None => {
            assert(ms[b].name@ != name);
        },
    }
    assert(crate::components::depends(ms, a, b));
    let there = seq![a, b];
    let back = seq![b, a];
    assert(chain(ms, there, a, b)) by {
        assert forall|i: int| 0 <= i < there.len() - 1 implies crate::components::adjacent(
            ms,
            #[trigger] there[i],
            there[i + 1],
        ) by {}
    }
    assert(chain(ms, back, b, a)) by {
        assert forall|i: int| 0 <= i < back.len() - 1 implies crate::components::adjacent(
            ms,
            #[trigger] back[i],
            back[i + 1],
        ) by {}
    }
}

/// Whether marks are the same at both ends of every dependency.
pub open spec fn respects_dependencies(ms: Seq<Manifest>, mark: spec_fn(int) -> int) -> bool {
    forall|a: int, d: int, b: int|
        #![trigger ms[a].dependencies@[d], ms[b]]
        0 <= a < ms.len() && 0 <= d < ms[a].dependencies@.len()
            && crate::dependency_laws::stands_for(ms, ms[a].dependencies@[d].0@, b) ==> mark(a)
            == mark(b)
}

proof fn along_a_chain(ms: Seq<Manifest>, mark: spec_fn(int) -> int, p: Seq<int>, n: int)
    requires
        respects_dependencies(ms, mark),
        0 <= n < p.len(),
        forall|i: int|
            0 <= i < p.len() - 1 ==> crate::components::adjacent(ms, #[trigger] p[i], p[i + 1]),
    ensures
        mark(p[0]) == mark(p[n]),
    decreases n,
{
    if n > 0 {
        along_a_chain(ms, mark, p, n - 1);
        let x = p[n - 1];
        let y = p[n - 1 + 1];
        assert(crate::components::adjacent(ms, x, y));
        if crate::components::depends(ms, x, y) {
            binds(ms, mark, x, y);
        } else {
            binds(ms, mark, y, x);
        }
    }
}

proof fn binds(ms: Seq<Manifest>, mark: spec_fn(int) -> int, a: int, b: int)
    requires
        respects_dependencies(ms, mark),
        0 <= a < ms.len(),
        0 <= b < ms.len(),
        crate::components::depends(ms, a, b),
    ensures
        mark(a) == mark(b),
{
    let d = choose|d: int|
        0 <= d < ms[a].dependencies@.len() && last_place(
            ms,
            (#[trigger] ms[a].dependencies@[d]).0@,
        ) == Some(b);
    last_place_stands(ms, ms[a].dependencies@[d].0@);
    assert(ms[b].name@ == ms[a].dependencies@[d].0@);
}

/// Only dependencies connect: marks that are the same at both ends of every dependency are the
/// same for any two plugins that are connected, so no two share a state that need not.
pub proof fn only_dependencies_connect(
    ms: Seq<Manifest>,
    mark: spec_fn(int) -> int,
    a: int,
    b: int,
)
    requires
        respects_dependencies(ms, mark),
        connected(ms, a, b),
    ensures
        mark(a) == mark(b),
{
    let p = choose|p: Seq<int>| chain(ms, p, a, b);
    along_a_chain(ms, mark, p, p.len() - 1);
}

/// Whether a plugin is what a build gave, for a manifest and on the word that was heard for it.
pub open spec fn is_as_built<I, E>(
    plugin: Plugin<I, E>,
    manifest: Manifest,
    signer: Signer,
    digest: Option<DirectoryDigest>,
    built: Built<I, E>,
) -> bool {
    &&& plugin.manifest == manifest
    &&& plugin.signer == signer
    &&& plugin.digest == digest
    &&& plugin.instance == built.instance
    &&& plugin.exports == built.exports
    &&& plugin.granted == built.granted
    &&& plugin.budget == built.budget
}

/// Whether the files of a plugin were read, and a registry admits it on them.
pub open spec fn admitted_on_files<I, E, L: Fn(&Manifest) -> Listing>(
    registry: Registry<I, E>,
    files: L,
    manifest: Manifest,
    signer: Signer,
    digest: Option<DirectoryDigest>,
) -> bool {
    exists|listing: Listing| #[trigger]
        call_ensures(files, (&manifest,), listing) && ruled_on(
            registry,
            manifest,
            listing,
            Ok((signer, digest)),
        )
}

/// What a load adds is what was built: a plugin is added only where nothing spoke against trying
/// it, its files were read and the registry admitted it on them, and the build that was asked for,
/// with that manifest, signer and digest and in the group it was placed in, gave it.
pub proof fn what_loads_was_admitted_and_built<
    I,
    E,
    R: Fn(&Manifest) -> Rocks,
    L: Fn(&Manifest) -> Listing,
    S: Fn(&Manifest, Placement, StateSource) -> Option<String>,
    B: Fn(&Registry<I, E>, &Manifest, Group, &Signer, &Option<DirectoryDigest>) -> Result<
        Built<I, E>,
        FailureReason,
    >,
>(works: Works<R, L, S, B>, before: Stage<I, E>, after: Stage<I, E>)
    requires
        tried(works, before, after),
        after.registry.plugins@.len() > before.registry.plugins@.len(),
    ensures
        exists|rocks: Rocks| #[trigger]
            call_ensures(works.rocks, (&before.progress.queue[0],), rocks) && may_be_tried(
                before.progress.queue[0],
                before.registry.loaded().contains(before.progress.queue[0].name@),
                before.progress.fallen,
                before.registry.isolation,
                rocks,
            ),
        exists|
            signer: Signer,
            digest: Option<DirectoryDigest>,
            registry: Registry<I, E>,
            built: Built<I, E>,
        |
            {
                &&& admitted_on_files(
                    before.registry,
                    works.files,
                    before.progress.queue[0],
                    signer,
                    digest,
                )
                &&& #[trigger] call_ensures(
                    works.build,
                    (
                        &registry,
                        &before.progress.queue[0],
                        after.registry.plugins@.last().group,
                        &signer,
                        &digest,
                    ),
                    Ok::<Built<I, E>, FailureReason>(built),
                )
                &&& is_as_built(
                    after.registry.plugins@.last(),
                    before.progress.queue[0],
                    signer,
                    digest,
                    built,
                )
            },
{
    let manifest = before.progress.queue[0];
    let registered = before.registry.loaded().contains(manifest.name@);
    let rocks = choose|rocks: Rocks| #[trigger]
        call_ensures(works.rocks, (&manifest,), rocks) && match refused_early(
            manifest,
            registered,
            before.progress.fallen,
            before.registry.isolation,
            rocks,
        ) {
            Some(reason) => {
                &&& after.registry == before.registry
                &&& after.progress == without_next(before.progress, reason)
            },
            None => exists|admission: Result<(Signer, Option<DirectoryDigest>), FailureReason>|
                #[trigger]
                ruled_by_files(before.registry, works.files, manifest, admission) && admitted_to(
                    works,
                    before,
                    admission,
                    after,
                ),
        };
    refused_for_a_true_reason(
        manifest,
        registered,
        before.progress.fallen,
        before.registry.isolation,
        rocks,
    );
    let admission = choose|admission: Result<(Signer, Option<DirectoryDigest>), FailureReason>|
        #[trigger]
        ruled_by_files(before.registry, works.files, manifest, admission) && admitted_to(
            works,
            before,
            admission,
            after,
        );
    let listing = choose|listing: Listing| #[trigger]
        call_ensures(works.files, (&manifest,), listing) && ruled_on(
            before.registry,
            manifest,
            listing,
            admission,
        );
    match admission {
        Ok((signer, digest)) => {
            assert(admitted_on_files(before.registry, works.files, manifest, signer, digest));
            let (group, middle, made) = choose|
                group: Group,
                middle: Stage<I, E>,
                made: Result<Built<I, E>, FailureReason>,
            |
                {
                    &&& #[trigger] placed(works.prepare, before, group, middle)
                    &&& call_ensures(
                        works.build,
                        (&middle.registry, &before.progress.queue[0], group, &signer, &digest),
                        made,
                    )
                    &&& #[trigger] concluded(middle, group, signer, digest, made, after)
                };
            match made {
                Ok(built) => {
                    assert(call_ensures(
                        works.build,
                        (
                            &middle.registry,
                            &before.progress.queue[0],
                            after.registry.plugins@.last().group,
                            &signer,
                            &digest,
                        ),
                        Ok::<Built<I, E>, FailureReason>(built),
                    ));
                    assert(is_as_built(
                        after.registry.plugins@.last(),
                        before.progress.queue[0],
                        signer,
                        digest,
                        built,
                    ));
                },
                Err(_) => {},
            }
        },
        Err(_) => {},
    }
}

} // verus!
