//! Loading: which of the discovered plugins is tried next, and what becomes of it.
//!
//! One bad plugin never stops the others. A load takes the manifests in load order; each is
//! refused, or handed to the caller to be verified and built, who then says what came of it.

use crate::components;
use crate::components::dependency_components;
use crate::failure;
use crate::failure::{failed, FailureReason, Failed, LoadFailure, Why};
use crate::manifest::{DependencySpec, Manifest};
use crate::names::NameMap;
use crate::registry::{Group, Isolation, LoadReport, Plugin, Registry};
use crate::resolve;
use crate::resolve::{displaced, load_order, order_failures, order_parts, place};
use crate::text;
use vstd::prelude::*;
use vstd::string::*;

verus! {

/// What a tree of LuaRocks packages answers for one declared rock.
#[derive(Debug, PartialEq, Eq)]
pub struct RockLookup {
    /// The requirement as it was read, or why it could not be.
    pub required: Result<String, String>,
    /// The version that is installed, if one is.
    pub found: Option<String>,
    /// Whether the installed version satisfies the requirement.
    pub satisfied: bool,
}

/// Where the rocks a plugin declares are looked up.
#[derive(Debug, PartialEq, Eq)]
pub enum Rocks {
    /// The host was built without support for rocks.
    Unsupported,
    /// No tree is configured.
    NoTree,
    /// What the tree answers, for each rock of the manifest in order.
    Tree(Vec<RockLookup>),
}

/// Why the rocks from `from` on cannot be had, if they cannot.
pub open spec fn rock_fault_from(
    rocks: Seq<(String, String)>,
    lookups: Seq<RockLookup>,
    from: int,
) -> Option<Why>
    decreases rocks.len() - from,
{
    if from < 0 || from >= rocks.len() || from >= lookups.len() {
        None
    } else {
        let name = rocks[from].0@;
        match lookups[from].required {
            Err(message) => Some(Why::Rocks(message@)),
            Ok(required) => match lookups[from].found {
                None => Some(Why::MissingRock { name, required: required@ }),
                Some(found) => if !lookups[from].satisfied {
                    Some(Why::IncompatibleRock { name, required: required@, found: found@ })
                } else {
                    rock_fault_from(rocks, lookups, from + 1)
                },
            },
        }
    }
}

/// Why the rocks a manifest declares cannot be had, if they cannot.
pub open spec fn rock_fault(manifest: Manifest, rocks: Rocks) -> Option<Why> {
    if manifest.rocks@.len() == 0 {
        None
    } else {
        match rocks {
            Rocks::Unsupported => Some(
                Why::Rocks("declares `[rocks]` but the `luarocks` feature is not enabled"@),
            ),
            Rocks::NoTree => Some(
                Why::Rocks(
                    "declares `[rocks]` but the registry has no LuaRocks tree configured"@,
                ),
            ),
            Rocks::Tree(lookups) => rock_fault_from(manifest.rocks@, lookups@, 0),
        }
    }
}

/// Checks one plugin's `[rocks]` against what the tree holds.
pub fn verify_rocks(manifest: &Manifest, rocks: &Rocks) -> (r: Result<(), FailureReason>)
    ensures
        resolve::reason_of(r) == rock_fault(*manifest, *rocks),
{
    if manifest.rocks.is_empty() {
        return Ok(());
    }
    match rocks {
        Rocks::Unsupported => Err(
            FailureReason::Rocks(
                "declares `[rocks]` but the `luarocks` feature is not enabled".to_owned(),
            ),
        ),
        Rocks::NoTree => Err(
            FailureReason::Rocks(
                "declares `[rocks]` but the registry has no LuaRocks tree configured".to_owned(),
            ),
        ),
        Rocks::Tree(lookups) => {
            let n: usize = manifest.rocks.entries.len();
            let mut i: usize = 0;
            while i < n && i < lookups.len()
                invariant
                    n == manifest.rocks.entries.len(),
                    i <= n,
                    n > 0,
                    *rocks == Rocks::Tree(*lookups),
                    rock_fault(*manifest, *rocks) == rock_fault_from(
                        manifest.rocks@,
                        lookups@,
                        i as int,
                    ),
                decreases n - i,
            {
                let name = &manifest.rocks.entries[i].0;
                let lookup = &lookups[i];
                match &lookup.required {
                    Err(message) => {
                        return Err(FailureReason::Rocks(message.clone()));
                    },
                    Ok(required) => match &lookup.found {
                        None => {
                            return Err(
                                FailureReason::MissingRock {
                                    name: name.clone(),
                                    required: required.clone(),
                                },
                            );
                        },
                        Some(found) => {
                            if !lookup.satisfied {
                                return Err(
                                    FailureReason::IncompatibleRock {
                                        name: name.clone(),
                                        required: required.clone(),
                                        found: found.clone(),
                                    },
                                );
                            }
                        },
                    },
                }
                i = i + 1;
            }
            Ok(())
        },
    }
}

/// The first required dependency at or after `from` that failed.
pub open spec fn failed_dependency(
    dependencies: Seq<(String, DependencySpec)>,
    fallen: Set<Seq<char>>,
    from: int,
) -> Option<Seq<char>>
    decreases dependencies.len() - from,
{
    if from < 0 || from >= dependencies.len() {
        None
    } else if !dependencies[from].1.may_be_absent() && fallen.contains(dependencies[from].0@) {
        Some(dependencies[from].0@)
    } else {
        failed_dependency(dependencies, fallen, from + 1)
    }
}

/// Why a manifest is refused before it is verified, if it is: its name is taken, a dependency
/// it requires failed, it declares a dependency although no state is shared, or its rocks
/// cannot be had.
pub open spec fn refused_early(
    manifest: Manifest,
    registered: bool,
    fallen: Set<Seq<char>>,
    isolation: Isolation,
    rocks: Rocks,
) -> Option<Why> {
    if registered {
        Some(
            Why::Manifest(
                "another plugin is already registered as `"@ + manifest.name@ + "`"@,
            ),
        )
    } else if failed_dependency(manifest.dependencies@, fallen, 0) is Some {
        Some(Why::DependencyFailed(failed_dependency(manifest.dependencies@, fallen, 0)->0))
    } else if isolation is PerPlugin && manifest.dependencies@.len() > 0 {
        Some(Why::CrossStateDependency(manifest.dependencies@[0].0@))
    } else {
        rock_fault(manifest, rocks)
    }
}

/// A load in progress.
#[derive(Debug)]
pub struct Loading {
    queue: Vec<Manifest>,
    fallen: NameMap<()>,
    loaded: Vec<String>,
    failures: Vec<LoadFailure>,
    components: Option<NameMap<usize>>,
    states: Vec<(usize, Group)>,
}

/// What a load in progress is, apart from how it is stored: the manifests still to be tried,
/// in load order; the names that failed; and what has come of the others.
pub struct Progress {
    pub queue: Seq<Manifest>,
    pub fallen: Set<Seq<char>>,
    pub loaded: Seq<Seq<char>>,
    pub failures: Seq<Failed>,
    pub components: Option<NameMap<usize>>,
    pub states: Seq<(usize, Group)>,
}

/// What to do next.
#[derive(Debug)]
pub enum Step {
    /// Nothing is left.
    Done,
    /// A plugin was refused.
    Skipped,
    /// Verify and build this plugin.
    Load(Manifest),
}

/// In which state a plugin runs.
#[derive(Debug, Clone, Copy, PartialEq, Eq, Structural)]
pub enum Placement {
    /// In whatever the isolation mode hands out, on its own.
    Alone,
    /// In the state of a group that already has one.
    With(Group),
    /// In a state to be made for the component.
    First(usize),
}

/// The group of a component among those that have a state.
pub open spec fn group_of(states: Seq<(usize, Group)>, component: usize) -> Option<Group>
    decreases states.len(),
{
    if states.len() == 0 {
        None
    } else if states[0].0 == component {
        Some(states[0].1)
    } else {
        group_of(states.drop_first(), component)
    }
}

/// In which state a plugin runs.
pub open spec fn placement(
    components: Option<NameMap<usize>>,
    states: Seq<(usize, Group)>,
    name: Seq<char>,
) -> Placement {
    match components {
        Some(map) => match map.at(name) {
            Some(component) => match group_of(states, component) {
                Some(group) => Placement::With(group),
                None => Placement::First(component),
            },
            None => Placement::Alone,
        },
        None => Placement::Alone,
    }
}

/// The names of failures.
pub open spec fn failed_names(list: Seq<Failed>) -> Set<Seq<char>>
    decreases list.len(),
{
    if list.len() == 0 {
        Set::empty()
    } else {
        failed_names(list.drop_last()).insert(list.last().name)
    }
}

impl View for Loading {
    type V = Progress;

    closed spec fn view(&self) -> Progress {
        Progress {
            queue: self.queue@.reverse(),
            fallen: Set::new(|name: Seq<char>| self.fallen.has(name)),
            loaded: text::texts(self.loaded@),
            failures: failed(self.failures@),
            components: self.components,
            states: self.states@,
        }
    }
}

/// Whether a load of the manifests that were discovered starts so: they stand in load order,
/// those that could not be read or ordered have failed, and under grouped isolation each has
/// its component.
pub open spec fn begun(
    start: Progress,
    manifests: Seq<Manifest>,
    unreadable: Seq<LoadFailure>,
    isolation: Isolation,
) -> bool {
    &&& start.queue.len() == load_order(manifests).len()
    &&& forall|k: int|
        0 <= k < start.queue.len() ==> #[trigger] start.queue[k] == manifests[place(
            manifests,
            load_order(manifests)[k],
        )->0]
    &&& start.failures == failed(unreadable) + order_failures(manifests) + displaced(manifests)
    &&& start.fallen == failed_names(failed(unreadable) + order_failures(manifests))
    &&& start.loaded.len() == 0
    &&& start.states.len() == 0
    &&& (start.components is Some) == (isolation is PerGroup)
    &&& start.components matches Some(map) ==> {
        &&& map.wf()
        &&& forall|name: Seq<char>| #[trigger]
            map.has(name) <==> components::last_place(start.queue, name) is Some
        &&& forall|a: Seq<char>, b: Seq<char>| #[trigger]
            map.has(a) && #[trigger] map.has(b) ==> (map.at(a) == map.at(b)
                <==> components::connected(
                start.queue,
                components::last_place(start.queue, a)->0,
                components::last_place(start.queue, b)->0,
            ))
    }
}

/// A map of names with one more.
fn add_name(map: &mut NameMap<()>, name: &String)
    requires
        old(map).wf(),
    ensures
        final(map).wf(),
        Set::new(|other: Seq<char>| final(map).has(other)) == Set::new(
            |other: Seq<char>| old(map).has(other),
        ).insert(name@),
{
    let ghost was = *map;
    map.insert(name.clone(), ());
    proof {
        let now = Set::new(|other: Seq<char>| map.has(other));
        let then = Set::new(|other: Seq<char>| was.has(other)).insert(name@);
        assert forall|other: Seq<char>| now.contains(other) == then.contains(other) by {
            assert(map.has(other) == (map.at(other) is Some));
            assert(was.has(other) == (was.at(other) is Some));
        }
        assert(now =~= then);
    }
}

impl Loading {
    /// The names and components of a load are in order.
    pub closed spec fn wf(self) -> bool {
        &&& self.fallen.wf()
        &&& self.components matches Some(map) ==> map.wf()
        &&& forall|i: int| 0 <= i < self.queue@.len() ==> (#[trigger] self.queue@[i]).wf()
    }

    /// Starts a load of the manifests that were discovered, given those that could not be
    /// read. Under grouped isolation the partition is decided before anything is built, so
    /// that a plugin's state is a property of the whole dependency graph.
    pub fn begin(
        manifests: Vec<Manifest>,
        unreadable: Vec<LoadFailure>,
        isolation: &Isolation,
    ) -> (r: Loading)
        requires
            forall|i: int| 0 <= i < manifests@.len() ==> (#[trigger] manifests@[i]).wf(),
        ensures
            r.wf(),
            begun(r@, manifests@, unreadable@, *isolation),
    {
        let ghost ms = manifests@;
        let parts = order_parts(manifests);
        let ordered = parts.queue;
        let mut more = parts.failures;
        let mut others = parts.displaced;
        let ghost order = ordered@;
        let ghost late = failed(more@);
        let mut failures = unreadable;
        let ghost early = failed(failures@);
        failures.append(&mut more);
        proof {
            assert(failed(failures@) =~= early + late);
            assert forall|k: int| 0 <= k < order.len() implies (#[trigger] order[k]).wf() by {
                let name = load_order(ms)[k];
                let all = resolve::node_order(resolve::nodes(ms));
                resolve::firsts_hold(all, all.len() as int);
                assert(load_order(ms).contains(name));
                let c = choose|c: int| 0 <= c < all.len() && (#[trigger] all[c]) == name;
                assert(all.contains(name));
                resolve::ordered_is_node(resolve::nodes(ms), name);
                resolve::node_has_place(ms, name);
                resolve::place_holds(ms, name, ms.len() as int);
            }
        }
        let components = match isolation {
            Isolation::PerGroup(_) => Some(dependency_components(&ordered)),
            _ => None,
        };
        let n: usize = failures.len();
        let mut fallen: NameMap<()> = NameMap::new();
        let ghost all = failed(failures@);
        let mut i: usize = 0;
        proof {
            assert(Set::new(|name: Seq<char>| fallen.has(name)) =~= failed_names(
                all.subrange(0, 0),
            ));
        }
        while i < n
            invariant
                n == failures.len(),
                i <= n,
                all == failed(failures@),
                fallen.wf(),
                Set::new(|name: Seq<char>| fallen.has(name)) == failed_names(
                    all.subrange(0, i as int),
                ),
            decreases n - i,
        {
            add_name(&mut fallen, &failures[i].name);
            proof {
                let here = all.subrange(0, i + 1);
                assert(here.drop_last() =~= all.subrange(0, i as int));
                assert(here.last() == failures@[i as int]@);
            }
            i = i + 1;
        }
        proof {
            assert(all.subrange(0, n as int) =~= all);
        }
        // A name that stands for another plugin has not fallen: that plugin may still load.
        let ghost behind = failed(others@);
        failures.append(&mut others);
        proof {
            assert(failed(failures@) =~= all + behind);
        }
        // Turned round, so that the next is taken off the end.
        let mut rest = ordered;
        let mut queue: Vec<Manifest> = Vec::new();
        while rest.len() > 0
            invariant
                rest@.len() + queue@.len() == order.len(),
                forall|k: int| 0 <= k < rest@.len() ==> #[trigger] rest@[k] == order[k],
                forall|k: int|
                    0 <= k < queue@.len() ==> #[trigger] queue@[k] == order[order.len() - 1 - k],
            decreases rest@.len(),
        {
            match rest.pop() {
                Some(manifest) => {
                    queue.push(manifest);
                },
                None => {},
            }
        }
        proof {
            assert(queue@.reverse() =~= order);
            assert forall|k: int| 0 <= k < queue@.len() implies (#[trigger] queue@[k]).wf() by {
                assert(queue@[k] == order[order.len() - 1 - k]);
            }
        }
        let loaded: Vec<String> = Vec::new();
        proof {
            assert(text::texts(loaded@).len() == 0);
        }
        Loading { queue, fallen, loaded, failures, components, states: Vec::new() }
    }

    /// The manifest that is tried next.
    pub fn peek(&self) -> (r: Option<&Manifest>)
        ensures
            match r {
                Some(manifest) => self@.queue.len() > 0 && *manifest == self@.queue[0],
                None => self@.queue.len() == 0,
            },
    {
        let n: usize = self.queue.len();
        if n == 0 {
            None
        } else {
            Some(&self.queue[n - 1])
        }
    }

    /// Takes the next manifest: refuses it, or hands it out to be verified and built.
    pub fn next<I, E>(&mut self, registry: &Registry<I, E>, rocks: &Rocks) -> (r: Step)
        requires
            old(self).wf(),
            registry.wf(),
        ensures
            final(self).wf(),
            old(self)@.queue.len() == 0 ==> r is Done && final(self)@ == old(self)@,
            old(self)@.queue.len() > 0 ==> {
                let manifest = old(self)@.queue[0];
                let early = refused_early(
                    manifest,
                    registry.loaded().contains(manifest.name@),
                    old(self)@.fallen,
                    registry.isolation,
                    *rocks,
                );
                match early {
                    Some(reason) => r is Skipped && final(self)@ == (Progress {
                        queue: old(self)@.queue.drop_first(),
                        fallen: old(self)@.fallen.insert(manifest.name@),
                        failures: old(self)@.failures.push(
                            Failed { name: manifest.name@, dir: manifest.dir@, reason },
                        ),
                        ..old(self)@
                    }),
                    None => r == Step::Load(manifest) && manifest.wf() && final(self)@ == (
                    Progress { queue: old(self)@.queue.drop_first(), ..old(self)@ }),
                }
            },
    {
        let ghost was = self@;
        if self.queue.len() == 0 {
            return Step::Done;
        }
        let ghost line = self.queue@;
        match self.queue.pop() {
            None => Step::Done,
            Some(manifest) => {
                proof {
                    assert(line.reverse()[0] == manifest);
                    assert(self.queue@.reverse() =~= line.reverse().drop_first());
                    assert(self@.queue == was.queue.drop_first());
                    assert(line[line.len() - 1].wf());
                }
                match refuse_early(&manifest, registry, &self.fallen, rocks) {
                    Some(reason) => {
                        self.record_failure(&manifest, reason);
                        Step::Skipped
                    },
                    None => Step::Load(manifest),
                }
            },
        }
    }

    /// Records that a plugin did not load.
    pub fn record_failure(&mut self, manifest: &Manifest, reason: FailureReason)
        requires
            old(self).wf(),
        ensures
            final(self).wf(),
            final(self)@ == (Progress {
                fallen: old(self)@.fallen.insert(manifest.name@),
                failures: old(self)@.failures.push(
                    Failed { name: manifest.name@, dir: manifest.dir@, reason: reason@ },
                ),
                ..old(self)@
            }),
    {
        let ghost had = failed(self.failures@);
        add_name(&mut self.fallen, &manifest.name);
        let failure = LoadFailure {
            name: manifest.name.clone(),
            dir: manifest.dir.clone(),
            reason,
        };
        self.failures.push(failure);
        proof {
            assert(failed(self.failures@) =~= had.push(failure@));
        }
    }

    /// Records that a plugin was built, and adds it to the registry.
    pub fn record_loaded<I, E>(&mut self, registry: &mut Registry<I, E>, plugin: Plugin<I, E>)
        requires
            old(self).wf(),
            old(registry).wf(),
            plugin.manifest.wf(),
            !old(registry).loaded().contains(plugin.manifest.name@),
        ensures
            final(self).wf(),
            final(self)@ == (Progress {
                loaded: old(self)@.loaded.push(plugin.manifest.name@),
                ..old(self)@
            }),
            final(registry).wf(),
            final(registry).plugins@ == old(registry).plugins@.push(plugin),
            final(registry).same_rules(*old(registry)),
    {
        let ghost had = text::texts(self.loaded@);
        self.loaded.push(plugin.manifest.name.clone());
        proof {
            assert(text::texts(self.loaded@) =~= had.push(plugin.manifest.name@));
        }
        registry.add_plugin(plugin);
    }

    /// In which state a plugin runs.
    pub fn placement(&self, name: &str) -> (r: Placement)
        requires
            self.wf(),
        ensures
            r == placement(self@.components, self@.states, name@),
    {
        match &self.components {
            None => Placement::Alone,
            Some(map) => match map.get(name) {
                None => Placement::Alone,
                Some(component) => {
                    let sought: usize = *component;
                    let n: usize = self.states.len();
                    let mut i: usize = 0;
                    proof {
                        assert(self.states@.skip(0) =~= self.states@);
                    }
                    while i < n
                        invariant
                            n == self.states.len(),
                            i <= n,
                            self.components == Some(*map),
                            map.at(name@) == Some(sought),
                            group_of(self.states@, sought) == group_of(
                                self.states@.skip(i as int),
                                sought,
                            ),
                        decreases n - i,
                    {
                        let ghost rest = self.states@.skip(i as int);
                        proof {
                            assert(rest[0] == self.states@[i as int]);
                            assert(rest.drop_first() =~= self.states@.skip(i + 1));
                        }
                        if self.states[i].0 == sought {
                            return Placement::With(self.states[i].1);
                        }
                        i = i + 1;
                    }
                    proof {
                        assert(self.states@.skip(n as int).len() == 0);
                    }
                    Placement::First(sought)
                },
            },
        }
    }

    /// Records the state made for a component, and numbers its group.
    pub fn open_group<I, E>(&mut self, registry: &mut Registry<I, E>, component: usize) -> (r: Group)
        requires
            old(self).wf(),
            old(registry).wf(),
        ensures
            final(self).wf(),
            r == Group(old(registry).next_group),
            final(registry).wf(),
            final(registry).plugins@ == old(registry).plugins@,
            final(registry).same_rules(
                Registry { next_group: final(registry).next_group, ..*old(registry) },
            ),
            final(registry).next_group as int == if old(registry).next_group == u64::MAX {
                u64::MAX as int
            } else {
                old(registry).next_group + 1
            },
            final(self)@ == (Progress { states: old(self)@.states.push((component, r)), ..old(self)@ }),
    {
        let group = registry.fresh_group();
        self.states.push((component, group));
        group
    }

    /// What the load did.
    pub fn finish(self) -> (r: LoadReport)
        ensures
            text::texts(r.loaded@) == self@.loaded,
            failed(r.failures@) == self@.failures,
    {
        LoadReport { loaded: self.loaded, failures: self.failures }
    }
}

/// Why a manifest is refused before it is verified, if it is.
fn refuse_early<I, E>(
    manifest: &Manifest,
    registry: &Registry<I, E>,
    fallen: &NameMap<()>,
    rocks: &Rocks,
) -> (r: Option<FailureReason>)
    requires
        registry.wf(),
        fallen.wf(),
    ensures
        crate::trust::reason_view(r) == refused_early(
            *manifest,
            registry.loaded().contains(manifest.name@),
            Set::new(|name: Seq<char>| fallen.has(name)),
            registry.isolation,
            *rocks,
        ),
{
    match registry.get(manifest.name.as_str()) {
        Some(plugin) => {
            proof {
                let i = choose|i: int|
                    0 <= i < registry.plugins@.len() && registry.plugins@[i] == *plugin;
                assert(registry.loaded()[i] == manifest.name@);
            }
            let mut out = "another plugin is already registered as `".to_owned();
            out.append(manifest.name.as_str());
            out.append("`");
            return Some(FailureReason::Manifest(out));
        },
        None => {},
    }
    let ghost names = Set::new(|name: Seq<char>| fallen.has(name));
    let n: usize = manifest.dependencies.entries.len();
    let mut i: usize = 0;
    while i < n
        invariant
            n == manifest.dependencies.entries.len(),
            i <= n,
            names == Set::new(|name: Seq<char>| fallen.has(name)),
            !registry.loaded().contains(manifest.name@),
            failed_dependency(manifest.dependencies@, names, 0) == failed_dependency(
                manifest.dependencies@,
                names,
                i as int,
            ),
        decreases n - i,
    {
        let entry = &manifest.dependencies.entries[i];
        if !entry.1.is_optional() && fallen.contains_key(entry.0.as_str()) {
            return Some(FailureReason::DependencyFailed(entry.0.clone()));
        }
        i = i + 1;
    }
    match &registry.isolation {
        Isolation::PerPlugin(_) => {
            if n > 0 {
                return Some(
                    FailureReason::CrossStateDependency(
                        manifest.dependencies.entries[0].0.clone(),
                    ),
                );
            }
        },
        _ => {},
    }
    match verify_rocks(manifest, rocks) {
        Ok(_) => None,
        Err(reason) => Some(reason),
    }
}

/// A plugin is never built while a dependency it requires is known to have failed.
pub proof fn nothing_loads_over_a_failure(
    manifest: Manifest,
    registered: bool,
    fallen: Set<Seq<char>>,
    isolation: Isolation,
    rocks: Rocks,
    i: int,
)
    requires
        refused_early(manifest, registered, fallen, isolation, rocks) is None,
        0 <= i < manifest.dependencies@.len(),
        !manifest.dependencies@[i].1.may_be_absent(),
    ensures
        !fallen.contains(manifest.dependencies@[i].0@),
        !registered,
{
    none_failed(manifest.dependencies@, fallen, 0, i);
}

proof fn none_failed(
    dependencies: Seq<(String, DependencySpec)>,
    fallen: Set<Seq<char>>,
    from: int,
    i: int,
)
    requires
        failed_dependency(dependencies, fallen, from) is None,
        0 <= from <= i < dependencies.len(),
        !dependencies[i].1.may_be_absent(),
    ensures
        !fallen.contains(dependencies[i].0@),
    decreases i - from,
{
    if from < i {
        none_failed(dependencies, fallen, from + 1, i);
    }
}

/// Once a component has a state, every plugin of the component runs in it.
pub proof fn members_share_a_state(
    components: Option<NameMap<usize>>,
    states: Seq<(usize, Group)>,
    component: usize,
    group: Group,
    name: Seq<char>,
)
    requires
        components matches Some(map) && map.at(name) == Some(component),
        group_of(states, component) is None,
    ensures
        placement(components, states.push((component, group)), name) == Placement::With(group),
{
    pushed_group(states, component, group);
}

proof fn pushed_group(states: Seq<(usize, Group)>, component: usize, group: Group)
    requires
        group_of(states, component) is None,
    ensures
        group_of(states.push((component, group)), component) == Some(group),
    decreases states.len(),
{
    let more = states.push((component, group));
    if states.len() > 0 {
        pushed_group(states.drop_first(), component, group);
        assert(more.drop_first() =~= states.drop_first().push((component, group)));
    }
}

} // verus!
