//! Load order: every plugin after the plugins it is wired to.
//!
//! Plugins whose requirements cannot be met are left out first. The rest are taken from a
//! queue that starts with those that wait for nothing, in the order of their names; taking
//! one releases those that waited for it last. What is never released is caught in a cycle.

use crate::dependency_laws::{
    left_out_when_not_met, ordered_plugins_are_met, reports_missing, root_meets, unmet_plugins_are_reported,
};
use crate::failure::{FailureReason, Failed, LoadFailure, Why};
use crate::manifest::{DependencySpec, Manifest};
use crate::names;
use crate::names::NameMap;
use crate::text;
use crate::version;
use crate::version::Version;
use vstd::prelude::*;

verus! {

/// The version that the last manifest with a name publishes.
pub open spec fn version_named(ms: Seq<Manifest>, name: Seq<char>) -> Option<Seq<char>>
    decreases ms.len(),
{
    if ms.len() == 0 {
        None
    } else if ms.last().name@ == name {
        Some(ms.last().published())
    } else {
        version_named(ms.drop_last(), name)
    }
}

/// What is wrong with one dependency, if anything, given the version that was found and
/// whether the requirement allows it.
pub open spec fn dependency_fault(
    name: Seq<char>,
    required: Seq<char>,
    found: Option<(Seq<char>, bool)>,
    optional: bool,
) -> Option<Why> {
    match found {
        Some((version, allowed)) => if allowed {
            None
        } else {
            Some(Why::IncompatibleDependency { name, required, found: version })
        },
        None => if optional {
            None
        } else {
            Some(Why::MissingDependency(name))
        },
    }
}

/// What is wrong with one dependency, if anything.
pub open spec fn unmet_dependency(
    ms: Seq<Manifest>,
    name: Seq<char>,
    spec_: DependencySpec,
) -> Option<Why> {
    dependency_fault(
        name,
        spec_.required(),
        match version_named(ms, name) {
            Some(found) => Some((found, version::requirement_allows(spec_.required(), found))),
            None => None,
        },
        spec_.may_be_absent(),
    )
}

/// What is wrong with the first of the dependencies from `from` on that cannot be met.
pub open spec fn unmet_from(
    ms: Seq<Manifest>,
    dependencies: Seq<(String, DependencySpec)>,
    from: int,
) -> Option<Why>
    decreases dependencies.len() - from,
{
    if from < 0 || from >= dependencies.len() {
        None
    } else {
        match unmet_dependency(ms, dependencies[from].0@, dependencies[from].1) {
            Some(why) => Some(why),
            None => unmet_from(ms, dependencies, from + 1),
        }
    }
}

/// Why a manifest's requirements cannot be met by a plugin root, if they cannot.
pub open spec fn unmet(ms: Seq<Manifest>, manifest: Manifest) -> Option<Why> {
    unmet_from(ms, manifest.dependencies@, 0)
}

/// Whether a manifest with this name was left out.
pub open spec fn dropped(ms: Seq<Manifest>, name: Seq<char>) -> bool {
    exists|i: int| 0 <= i < ms.len() && #[trigger] ms[i].name@ == name && unmet(ms, ms[i]) is Some
}

/// Whether a manifest waits for a plugin of this name: one that is there and was not left
/// out. An absent optional dependency is not waited for.
pub open spec fn awaited(ms: Seq<Manifest>, name: Seq<char>) -> bool {
    version_named(ms, name) is Some && !dropped(ms, name)
}

/// The names a manifest waits for.
pub open spec fn wired(ms: Seq<Manifest>, manifest: Manifest) -> Seq<Seq<char>> {
    wired_upto(ms, manifest.dependencies.keys(), manifest.dependencies.keys().len() as int)
}

pub open spec fn wired_upto(ms: Seq<Manifest>, keys: Seq<Seq<char>>, n: int) -> Seq<Seq<char>>
    decreases n,
{
    if n <= 0 {
        Seq::empty()
    } else if awaited(ms, keys[n - 1]) {
        wired_upto(ms, keys, n - 1).push(keys[n - 1])
    } else {
        wired_upto(ms, keys, n - 1)
    }
}

/// A plugin that is to be ordered: its name and the names it waits for.
pub struct Node {
    pub name: Seq<char>,
    pub deps: Seq<Seq<char>>,
}

/// The places of the first `n` manifests that were not left out.
pub open spec fn pending_upto(ms: Seq<Manifest>, n: int) -> Seq<int>
    decreases n,
{
    if n <= 0 {
        Seq::empty()
    } else if unmet(ms, ms[n - 1]) is None {
        pending_upto(ms, n - 1).push(n - 1)
    } else {
        pending_upto(ms, n - 1)
    }
}

/// The places of the manifests that were not left out.
pub open spec fn pending(ms: Seq<Manifest>) -> Seq<int> {
    pending_upto(ms, ms.len() as int)
}

/// The failures of the first `n` manifests that were left out.
pub open spec fn unmet_upto(ms: Seq<Manifest>, n: int) -> Seq<Failed>
    decreases n,
{
    if n <= 0 {
        Seq::empty()
    } else {
        let done = unmet_upto(ms, n - 1);
        match unmet(ms, ms[n - 1]) {
            Some(reason) => done.push(
                Failed { name: ms[n - 1].name@, dir: ms[n - 1].dir@, reason },
            ),
            None => done,
        }
    }
}

/// The plugins to be ordered.
pub open spec fn nodes(ms: Seq<Manifest>) -> Seq<Node> {
    pending(ms).map_values(|i: int| Node { name: ms[i].name@, deps: wired(ms, ms[i]) })
}

pub open spec fn node_names(list: Seq<Node>) -> Seq<Seq<char>> {
    list.map_values(|n: Node| n.name)
}

/// Who waits for whom: for each name waited for, in the order of the plugins that wait, the
/// name and the plugin.
pub open spec fn edges(list: Seq<Node>) -> Seq<(Seq<char>, Seq<char>)>
    decreases list.len(),
{
    if list.len() == 0 {
        Seq::empty()
    } else {
        edges(list.drop_last()) + list.last().deps.map_values(|d: Seq<char>| (d, list.last().name))
    }
}

/// For how many plugins each name waits.
pub open spec fn counts(list: Seq<Node>) -> Map<Seq<char>, nat>
    decreases list.len(),
{
    if list.len() == 0 {
        Map::empty()
    } else {
        counts(list.drop_last()).insert(list.last().name, list.last().deps.len())
    }
}

/// A name put into sorted names, after those equal to it.
pub open spec fn put_sorted(sorted: Seq<Seq<char>>, name: Seq<char>) -> Seq<Seq<char>>
    decreases sorted.len(),
{
    if sorted.len() > 0 && names::before(name, sorted.last()) {
        put_sorted(sorted.drop_last(), name).push(sorted.last())
    } else {
        sorted.push(name)
    }
}

/// Names in their order.
pub open spec fn sorted(list: Seq<Seq<char>>) -> Seq<Seq<char>>
    decreases list.len(),
{
    if list.len() == 0 {
        Seq::empty()
    } else {
        put_sorted(sorted(list.drop_last()), list.last())
    }
}

/// How many more plugins a name waits for.
pub open spec fn left_of(left: Map<Seq<char>, nat>, name: Seq<char>) -> nat {
    if left.dom().contains(name) {
        left[name]
    } else {
        0
    }
}

/// The names of the first `n` that wait for nothing.
pub open spec fn idle_upto(list: Seq<Seq<char>>, left: Map<Seq<char>, nat>, n: int) -> Seq<
    Seq<char>,
>
    decreases n,
{
    if n <= 0 {
        Seq::empty()
    } else if left_of(left, list[n - 1]) == 0 {
        idle_upto(list, left, n - 1).push(list[n - 1])
    } else {
        idle_upto(list, left, n - 1)
    }
}

/// Each of the first `n` edges that leads from `name` is one plugin less to wait for. Gives
/// what is left to wait for and the names released, in the order of the edges.
pub open spec fn release(
    left: Map<Seq<char>, nat>,
    list: Seq<(Seq<char>, Seq<char>)>,
    name: Seq<char>,
    n: int,
) -> (Map<Seq<char>, nat>, Seq<Seq<char>>)
    decreases n,
{
    if n <= 0 {
        (left, Seq::empty())
    } else {
        let (before, freed) = release(left, list, name, n - 1);
        let (from, to) = list[n - 1];
        if from == name && before.dom().contains(to) {
            let more: nat = if before[to] > 0 {
                (before[to] - 1) as nat
            } else {
                0
            };
            (
                before.insert(to, more),
                if more == 0 {
                    freed.push(to)
                } else {
                    freed
                },
            )
        } else {
            (before, freed)
        }
    }
}

/// The edges of the first `n` that do not lead from `name`.
pub open spec fn others(list: Seq<(Seq<char>, Seq<char>)>, name: Seq<char>, n: int) -> Seq<
    (Seq<char>, Seq<char>),
>
    decreases n,
{
    if n <= 0 {
        Seq::empty()
    } else if list[n - 1].0 == name {
        others(list, name, n - 1)
    } else {
        others(list, name, n - 1).push(list[n - 1])
    }
}

pub proof fn released_at_most(
    left: Map<Seq<char>, nat>,
    list: Seq<(Seq<char>, Seq<char>)>,
    name: Seq<char>,
    n: int,
)
    requires
        0 <= n <= list.len(),
    ensures
        release(left, list, name, n).1.len() + others(list, name, n).len() <= n,
    decreases n,
{
    if n > 0 {
        released_at_most(left, list, name, n - 1);
    }
}

/// The order in which names leave the queue.
pub open spec fn drain(
    list: Seq<(Seq<char>, Seq<char>)>,
    left: Map<Seq<char>, nat>,
    ready: Seq<Seq<char>>,
) -> Seq<Seq<char>>
    decreases list.len() + ready.len(),
    via drain_ends
{
    if ready.len() == 0 {
        Seq::empty()
    } else {
        let name = ready[0];
        let (less, freed) = release(left, list, name, list.len() as int);
        seq![name] + drain(
            others(list, name, list.len() as int),
            less,
            ready.drop_first() + freed,
        )
    }
}

#[via_fn]
proof fn drain_ends(
    list: Seq<(Seq<char>, Seq<char>)>,
    left: Map<Seq<char>, nat>,
    ready: Seq<Seq<char>>,
) {
    if ready.len() > 0 {
        released_at_most(left, list, ready[0], list.len() as int);
    }
}

/// The order of the plugins to be ordered, by name.
pub open spec fn node_order(list: Seq<Node>) -> Seq<Seq<char>> {
    let all = sorted(node_names(list));
    drain(edges(list), counts(list), idle_upto(all, counts(list), all.len() as int))
}

/// The names of the first `n` that do not occur in another list.
pub open spec fn missing_upto(list: Seq<Seq<char>>, from: Seq<Seq<char>>, n: int) -> Seq<Seq<char>>
    decreases n,
{
    if n <= 0 {
        Seq::empty()
    } else if from.contains(list[n - 1]) {
        missing_upto(list, from, n - 1)
    } else {
        missing_upto(list, from, n - 1).push(list[n - 1])
    }
}

/// The names that are never released, in their order.
pub open spec fn node_cycle(list: Seq<Node>) -> Seq<Seq<char>> {
    let all = sorted(node_names(list));
    missing_upto(all, node_order(list), all.len() as int)
}

/// Each of the first `n` names at its first occurrence.
pub open spec fn firsts(list: Seq<Seq<char>>, n: int) -> Seq<Seq<char>>
    decreases n,
{
    if n <= 0 {
        Seq::empty()
    } else {
        let done = firsts(list, n - 1);
        if done.contains(list[n - 1]) {
            done
        } else {
            done.push(list[n - 1])
        }
    }
}

/// The place of the last of the first `n` manifests that has a name and was not left out.
pub open spec fn place_upto(ms: Seq<Manifest>, name: Seq<char>, n: int) -> Option<int>
    decreases n,
{
    if n <= 0 {
        None
    } else if ms[n - 1].name@ == name && unmet(ms, ms[n - 1]) is None {
        Some(n - 1)
    } else {
        place_upto(ms, name, n - 1)
    }
}

/// The place of the manifest that a name stands for.
pub open spec fn place(ms: Seq<Manifest>, name: Seq<char>) -> Option<int> {
    place_upto(ms, name, ms.len() as int)
}

/// The names in load order.
pub open spec fn load_order(ms: Seq<Manifest>) -> Seq<Seq<char>> {
    let order = node_order(nodes(ms));
    firsts(order, order.len() as int)
}

/// The names caught in a cycle, in their order.
pub open spec fn cycle(ms: Seq<Manifest>) -> Seq<Seq<char>> {
    node_cycle(nodes(ms))
}

/// The failure of a plugin caught in a cycle.
pub open spec fn cycle_failure(ms: Seq<Manifest>, name: Seq<char>) -> Failed {
    Failed { name, dir: ms[place(ms, name)->0].dir@, reason: Why::DependencyCycle(cycle(ms)) }
}

/// The failures of plugins caught in a cycle.
pub open spec fn cycle_failures(ms: Seq<Manifest>) -> Seq<Failed> {
    firsts(cycle(ms), cycle(ms).len() as int).map_values(|name: Seq<char>| cycle_failure(ms, name))
}

/// Every plugin that could not be ordered: those left out, then those caught in a cycle.
pub open spec fn order_failures(ms: Seq<Manifest>) -> Seq<Failed> {
    unmet_upto(ms, ms.len() as int) + cycle_failures(ms)
}

/// The failure of a plugin whose name stands for another.
pub open spec fn displaced_failure(manifest: Manifest) -> Failed {
    Failed {
        name: manifest.name@,
        dir: manifest.dir@,
        reason: Why::Manifest(
            "another plugin is already registered as `"@ + manifest.name@ + "`"@,
        ),
    }
}

/// Whether a manifest that was not left out stands behind another of its name.
pub open spec fn is_displaced(ms: Seq<Manifest>, i: int) -> bool {
    unmet(ms, ms[i]) is None && place(ms, ms[i].name@) != Some(i)
}

/// The failures of the first `n` manifests whose name stands for another.
pub open spec fn displaced_upto(ms: Seq<Manifest>, n: int) -> Seq<Failed>
    decreases n,
{
    if n <= 0 {
        Seq::empty()
    } else if is_displaced(ms, n - 1) {
        displaced_upto(ms, n - 1).push(displaced_failure(ms[n - 1]))
    } else {
        displaced_upto(ms, n - 1)
    }
}

/// The failures of the manifests whose name stands for another: of several with one name, the
/// last is the one that is ordered.
pub open spec fn displaced(ms: Seq<Manifest>) -> Seq<Failed> {
    displaced_upto(ms, ms.len() as int)
}

/// The reason of a refusal.
pub open spec fn reason_of(r: Result<(), FailureReason>) -> Option<Why> {
    match r {
        Ok(_) => None,
        Err(reason) => Some(reason@),
    }
}

/// Whether a map holds the versions of a plugin root.
pub open spec fn versions_of(versions: NameMap<Version>, ms: Seq<Manifest>) -> bool {
    versions.wf() && forall|name: Seq<char>|
        version::opt_version(#[trigger] versions.at(name)) == version_named(ms, name)
}

/// The version each name publishes.
pub fn known_versions(manifests: &Vec<Manifest>) -> (r: NameMap<Version>)
    ensures
        versions_of(r, manifests@),
{
    let n: usize = manifests.len();
    let mut out: NameMap<Version> = NameMap::new();
    let mut i: usize = 0;
    while i < n
        invariant
            n == manifests.len(),
            i <= n,
            versions_of(out, manifests@.subrange(0, i as int)),
        decreases n - i,
    {
        let ghost had = out;
        let manifest = &manifests[i];
        out.insert(manifest.name.clone(), manifest.effective_version());
        proof {
            let here = manifests@.subrange(0, i + 1);
            assert(here.drop_last() =~= manifests@.subrange(0, i as int));
            assert forall|name: Seq<char>| version::opt_version(#[trigger] out.at(name))
                == version_named(here, name) by {
                assert(version::opt_version(had.at(name)) == version_named(
                    here.drop_last(),
                    name,
                ));
            }
        }
        i = i + 1;
    }
    proof {
        assert(manifests@.subrange(0, n as int) =~= manifests@);
    }
    out
}

/// What is wrong with one dependency, if anything, given the version that was found and
/// whether the requirement allows it.
pub fn judge_dependency(
    name: &str,
    required: &str,
    found: Option<(String, bool)>,
    optional: bool,
) -> (r: Option<FailureReason>)
    ensures
        crate::trust::reason_view(r) == dependency_fault(
            name@,
            required@,
            match found {
                Some((version, allowed)) => Some((version@, allowed)),
                None => None,
            },
            optional,
        ),
{
    match found {
        Some((version, allowed)) => {
            if allowed {
                None
            } else {
                Some(
                    FailureReason::IncompatibleDependency {
                        name: name.to_owned(),
                        required: required.to_owned(),
                        found: version,
                    },
                )
            }
        },
        None => {
            if optional {
                None
            } else {
                Some(FailureReason::MissingDependency(name.to_owned()))
            }
        },
    }
}

/// Checks one manifest's dependencies against what the plugin root actually holds.
fn check_dependencies(
    manifest: &Manifest,
    versions: &NameMap<Version>,
    Ghost(ms): Ghost<Seq<Manifest>>,
) -> (r: Result<(), FailureReason>)
    requires
        versions_of(*versions, ms),
    ensures
        reason_of(r) == unmet(ms, *manifest),
        r is Ok <==> root_meets(ms, *manifest),
{
    proof {
        left_out_when_not_met(ms, *manifest);
    }
    let n: usize = manifest.dependencies.entries.len();
    let mut i: usize = 0;
    while i < n
        invariant
            n == manifest.dependencies.entries.len(),
            i <= n,
            versions_of(*versions, ms),
            unmet(ms, *manifest) == unmet_from(ms, manifest.dependencies@, i as int),
            unmet(ms, *manifest) is None <==> root_meets(ms, *manifest),
        decreases n - i,
    {
        let entry = &manifest.dependencies.entries[i];
        let requirement = entry.1.requirement();
        proof {
            assert(version::opt_version(versions.at(entry.0@)) == version_named(ms, entry.0@));
        }
        let found: Option<(String, bool)> = match versions.get(entry.0.as_str()) {
            Some(found) => Some((found.to_string(), requirement.matches(found))),
            None => None,
        };
        match judge_dependency(
            entry.0.as_str(),
            requirement.to_string().as_str(),
            found,
            entry.1.is_optional(),
        ) {
            Some(reason) => {
                return Err(reason);
            },
            None => {},
        }
        i = i + 1;
    }
    Ok(())
}

/// The names a manifest waits for.
fn wired_names(
    manifest: &Manifest,
    versions: &NameMap<Version>,
    out_of: &NameMap<()>,
    Ghost(ms): Ghost<Seq<Manifest>>,
) -> (r: Vec<String>)
    requires
        versions_of(*versions, ms),
        forall|name: Seq<char>| #[trigger] out_of.has(name) == dropped(ms, name),
    ensures
        text::texts(r@) == wired(ms, *manifest),
{
    let n: usize = manifest.dependencies.entries.len();
    let ghost keys = manifest.dependencies.keys();
    let mut out: Vec<String> = Vec::new();
    let mut i: usize = 0;
    proof {
        assert(text::texts(out@) =~= wired_upto(ms, keys, 0));
    }
    while i < n
        invariant
            n == manifest.dependencies.entries.len(),
            i <= n,
            keys == manifest.dependencies.keys(),
            versions_of(*versions, ms),
            forall|name: Seq<char>| #[trigger] out_of.has(name) == dropped(ms, name),
            text::texts(out@) == wired_upto(ms, keys, i as int),
        decreases n - i,
    {
        let name = &manifest.dependencies.entries[i].0;
        let ghost had = text::texts(out@);
        proof {
            assert(keys[i as int] == name@);
            assert(version::opt_version(versions.at(name@)) == version_named(ms, name@));
        }
        if versions.contains_key(name.as_str()) && !out_of.contains_key(name.as_str()) {
            out.push(name.clone());
            proof {
                assert(text::texts(out@) =~= had.push(name@));
            }
        }
        i = i + 1;
    }
    out
}

/// Puts a name into sorted names.
fn put_name(list: &mut Vec<String>, name: String)
    ensures
        text::texts(final(list)@) == put_sorted(text::texts(old(list)@), name@),
{
    let mut at: usize = list.len();
    proof {
        assert(text::texts(list@).subrange(0, at as int) =~= text::texts(list@));
        assert(put_sorted(text::texts(list@), name@) =~= put_sorted(
            text::texts(list@).subrange(0, at as int),
            name@,
        ) + text::texts(list@).subrange(at as int, list@.len() as int));
    }
    while at > 0 && names::is_before(name.as_str(), list[at - 1].as_str())
        invariant
            *list == *old(list),
            at <= list@.len(),
            put_sorted(text::texts(list@), name@) == put_sorted(
                text::texts(list@).subrange(0, at as int),
                name@,
            ) + text::texts(list@).subrange(at as int, list@.len() as int),
        decreases at,
    {
        proof {
            let all = text::texts(list@);
            let here = all.subrange(0, at as int);
            assert(here.last() == list@[at - 1]@);
            assert(here.drop_last() =~= all.subrange(0, at - 1));
            assert(put_sorted(here, name@) + all.subrange(at as int, all.len() as int)
                =~= put_sorted(all.subrange(0, at - 1), name@) + all.subrange(
                at - 1,
                all.len() as int,
            ));
        }
        at = at - 1;
    }
    let ghost all = text::texts(list@);
    proof {
        let here = all.subrange(0, at as int);
        if at > 0 {
            assert(here.last() == list@[at - 1]@);
        }
        assert(put_sorted(here, name@) == here.push(name@));
    }
    let ghost given = name@;
    list.insert(at, name);
    proof {
        assert(text::texts(list@) =~= all.subrange(0, at as int).push(given) + all.subrange(
            at as int,
            all.len() as int,
        ));
    }
}

/// The view of a list of edges.
pub open spec fn edge_views(list: Seq<(String, String)>) -> Seq<(Seq<char>, Seq<char>)> {
    list.map_values(|e: (String, String)| (e.0@, e.1@))
}

/// The view of a count of what each name waits for.
pub open spec fn left_view(left: NameMap<usize>) -> Map<Seq<char>, nat> {
    Map::new(|name: Seq<char>| left.has(name), |name: Seq<char>| left.at(name)->0 as nat)
}

/// Sets what a name waits for.
fn set_left(left: &mut NameMap<usize>, name: &String, count: usize)
    requires
        old(left).wf(),
    ensures
        final(left).wf(),
        left_view(*final(left)) == left_view(*old(left)).insert(name@, count as nat),
{
    let ghost was = *left;
    left.insert(name.clone(), count);
    proof {
        let now = left_view(*left);
        let then = left_view(was).insert(name@, count as nat);
        assert forall|key: Seq<char>| now.dom().contains(key) == then.dom().contains(key) by {
            assert(left.has(key) == (left.at(key) is Some));
            assert(was.has(key) == (was.at(key) is Some));
        }
        assert forall|key: Seq<char>| now.dom().contains(key) implies now[key] == then[key] by {
            assert(left.has(key) == (left.at(key) is Some));
            assert(was.has(key) == (was.at(key) is Some));
        }
        assert(now =~= then);
    }
}

/// Takes names from the queue until it is empty, releasing the names that waited for them.
fn drain_queue(all: Vec<(String, String)>, counted: NameMap<usize>, idle: Vec<String>) -> (r: Vec<
    String,
>)
    requires
        counted.wf(),
    ensures
        text::texts(r@) == drain(edge_views(all@), left_view(counted), text::texts(idle@)),
{
    let ghost whole = drain(edge_views(all@), left_view(counted), text::texts(idle@));
    let mut waiting = all;
    let mut left = counted;
    let mut ready = idle;
    let mut order: Vec<String> = Vec::new();
    let mut head: usize = 0;
    proof {
        assert(text::texts(ready@).skip(0) =~= text::texts(ready@));
        assert(text::texts(order@) + whole =~= whole);
    }
    while head < ready.len()
        invariant
            left.wf(),
            head <= ready.len(),
            text::texts(order@) + drain(
                edge_views(waiting@),
                left_view(left),
                text::texts(ready@).skip(head as int),
            ) == whole,
        decreases waiting@.len() + ready@.len() - head,
    {
        let name = ready[head].clone();
        let n: usize = waiting.len();
        let ghost list = edge_views(waiting@);
        let ghost start = left_view(left);
        let ghost queue = text::texts(ready@);
        let mut rest: Vec<(String, String)> = Vec::new();
        let mut i: usize = 0;
        proof {
            assert(edge_views(rest@) =~= others(list, name@, 0));
            assert(text::texts(ready@) =~= queue + release(start, list, name@, 0).1);
        }
        while i < n
            invariant
                n == waiting.len(),
                i <= n,
                head < ready.len(),
                left.wf(),
                list == edge_views(waiting@),
                left_view(left) == release(start, list, name@, i as int).0,
                text::texts(ready@) == queue + release(start, list, name@, i as int).1,
                edge_views(rest@) == others(list, name@, i as int),
                ready@.len() + rest@.len() <= queue.len() + i,
            decreases n - i,
        {
            let edge = &waiting[i];
            proof {
                assert(list[i as int] == (edge.0@, edge.1@));
            }
            if edge.0 == name {
                match left.get(edge.1.as_str()) {
                    Some(count) => {
                        let more: usize = if *count > 0 {
                            *count - 1
                        } else {
                            0
                        };
                        let ghost freed = release(start, list, name@, i as int).1;
                        proof {
                            assert(left.has(edge.1@));
                        }
                        set_left(&mut left, &edge.1, more);
                        if more == 0 {
                            let ghost had = text::texts(ready@);
                            ready.push(edge.1.clone());
                            proof {
                                assert(text::texts(ready@) =~= had.push(edge.1@));
                                assert((queue + freed).push(edge.1@) =~= queue + freed.push(edge.1@));
                            }
                        }
                    },
                    None => {
                        proof {
                            assert(!left.has(edge.1@));
                        }
                    },
                }
            } else {
                let ghost had = edge_views(rest@);
                rest.push((edge.0.clone(), edge.1.clone()));
                proof {
                    assert(edge_views(rest@) =~= had.push((edge.0@, edge.1@)));
                }
            }
            i = i + 1;
        }
        proof {
            let here = queue.skip(head as int);
            assert(here[0] == name@);
            let freed = release(start, list, name@, list.len() as int).1;
            assert(text::texts(ready@).skip(head + 1) =~= here.drop_first() + freed);
            assert(list.len() == n);
            let tail = drain(
                others(list, name@, n as int),
                left_view(left),
                here.drop_first() + freed,
            );
            assert(drain(list, start, here) == seq![name@] + tail);
            assert(text::texts(order@) + (seq![name@] + tail) =~= text::texts(order@).push(name@)
                + tail);
        }
        let ghost had = text::texts(order@);
        order.push(name);
        proof {
            assert(text::texts(order@) =~= had.push(name@));
        }
        waiting = rest;
        head = head + 1;
    }
    proof {
        assert(text::texts(ready@).skip(head as int).len() == 0);
        assert(text::texts(order@) + Seq::<Seq<char>>::empty() =~= text::texts(order@));
    }
    order
}

/// Each name at its first occurrence.
fn distinct(list: &Vec<String>) -> (r: Vec<String>)
    ensures
        text::texts(r@) == firsts(text::texts(list@), list@.len() as int),
{
    let n: usize = list.len();
    let mut out: Vec<String> = Vec::new();
    let mut i: usize = 0;
    proof {
        assert(text::texts(out@) =~= firsts(text::texts(list@), 0));
    }
    while i < n
        invariant
            n == list.len(),
            i <= n,
            text::texts(out@) == firsts(text::texts(list@), i as int),
        decreases n - i,
    {
        let ghost had = text::texts(out@);
        proof {
            assert(text::texts(list@)[i as int] == list@[i as int]@);
        }
        if !holds_name(&out, list[i].as_str()) {
            out.push(list[i].clone());
            proof {
                assert(text::texts(out@) =~= had.push(list@[i as int]@));
            }
        }
        i = i + 1;
    }
    out
}

/// Whether a list holds a name.
pub fn holds_name(list: &Vec<String>, name: &str) -> (r: bool)
    ensures
        r == text::texts(list@).contains(name@),
{
    let n: usize = list.len();
    let mut i: usize = 0;
    while i < n
        invariant
            n == list.len(),
            i <= n,
            forall|j: int| 0 <= j < i ==> (#[trigger] list@[j])@ != name@,
        decreases n - i,
    {
        if text::same(list[i].as_str(), name) {
            proof {
                assert(text::texts(list@)[i as int] == name@);
            }
            return true;
        }
        i = i + 1;
    }
    proof {
        if text::texts(list@).contains(name@) {
            let j = choose|j: int|
                0 <= j < text::texts(list@).len() && text::texts(list@)[j] == name@;
            assert(list@[j]@ == name@);
        }
    }
    false
}

/// The place of the manifest that a name stands for, or the number of manifests.
fn place_of(manifests: &Vec<Manifest>, kept: &Vec<bool>, name: &str) -> (r: usize)
    requires
        kept@.len() == manifests@.len(),
        forall|i: int|
            0 <= i < kept@.len() ==> #[trigger] kept@[i] == (unmet(manifests@, manifests@[i])
                is None),
    ensures
        match place(manifests@, name@) {
            Some(at) => r == at && at < manifests@.len(),
            None => r == manifests@.len(),
        },
{
    let mut i: usize = manifests.len();
    while i > 0
        invariant
            i <= manifests@.len(),
            kept@.len() == manifests@.len(),
            forall|j: int|
                0 <= j < kept@.len() ==> #[trigger] kept@[j] == (unmet(
                    manifests@,
                    manifests@[j],
                ) is None),
            place(manifests@, name@) == place_upto(manifests@, name@, i as int),
        decreases i,
    {
        if kept[i - 1] && text::same(manifests[i - 1].name.as_str(), name) {
            return i - 1;
        }
        i = i - 1;
    }
    manifests.len()
}

/// A name stands for a manifest that has it and was not left out.
pub proof fn place_holds(ms: Seq<Manifest>, name: Seq<char>, n: int)
    requires
        0 <= n <= ms.len(),
    ensures
        place_upto(ms, name, n) matches Some(at) ==> 0 <= at < n && ms[at].name@ == name && unmet(
            ms,
            ms[at],
        ) is None,
        place_upto(ms, name, n) is None ==> forall|i: int|
            0 <= i < n && #[trigger] ms[i].name@ == name ==> unmet(ms, ms[i]) is Some,
    decreases n,
{
    if n > 0 {
        place_holds(ms, name, n - 1);
    }
}

pub proof fn pending_holds(ms: Seq<Manifest>, n: int)
    requires
        0 <= n <= ms.len(),
    ensures
        forall|k: int|
            0 <= k < pending_upto(ms, n).len() ==> 0 <= #[trigger] pending_upto(ms, n)[k] < n
                && unmet(ms, ms[pending_upto(ms, n)[k]]) is None,
        forall|i: int|
            0 <= i < n && unmet(ms, #[trigger] ms[i]) is None ==> pending_upto(ms, n).contains(i),
        forall|j: int, k: int|
            0 <= j < k < pending_upto(ms, n).len() ==> #[trigger] pending_upto(ms, n)[j]
                < #[trigger] pending_upto(ms, n)[k],
    decreases n,
{
    if n > 0 {
        pending_holds(ms, n - 1);
        let less = pending_upto(ms, n - 1);
        let here = pending_upto(ms, n);
        assert forall|i: int| 0 <= i < n && unmet(ms, #[trigger] ms[i]) is None implies here.contains(
            i,
        ) by {
            if i < n - 1 {
                let k = choose|k: int| 0 <= k < less.len() && less[k] == i;
                assert(here[k] == i);
            } else {
                assert(here[here.len() - 1] == i);
            }
        }
    }
}

/// Sorting keeps names as they are, each as often as it was there.
pub proof fn sorted_names(list: Seq<Seq<char>>)
    ensures
        sorted(list).to_multiset() == list.to_multiset(),
        sorted(list).len() == list.len(),
        forall|name: Seq<char>| #[trigger] sorted(list).contains(name) == list.contains(name),
    decreases list.len(),
{
    broadcast use vstd::seq_lib::group_to_multiset_ensures;
    if list.len() > 0 {
        sorted_names(list.drop_last());
        put_sorted_names(sorted(list.drop_last()), list.last());
        assert(list =~= list.drop_last().push(list.last()));
        assert(sorted(list).to_multiset() == list.to_multiset());
    } else {
        assert(sorted(list) =~= list);
    }
    assert forall|name: Seq<char>| #[trigger] sorted(list).contains(name) == list.contains(name) by {
        assert(sorted(list).contains(name) == (sorted(list).to_multiset().count(name) > 0));
        assert(list.contains(name) == (list.to_multiset().count(name) > 0));
    }
    assert(sorted(list).to_multiset().len() == sorted(list).len());
    assert(list.to_multiset().len() == list.len());
}

proof fn put_sorted_names(list: Seq<Seq<char>>, name: Seq<char>)
    ensures
        put_sorted(list, name).to_multiset() == list.to_multiset().insert(name),
    decreases list.len(),
{
    broadcast use vstd::seq_lib::group_to_multiset_ensures;
    if list.len() > 0 && names::before(name, list.last()) {
        put_sorted_names(list.drop_last(), name);
        assert(list =~= list.drop_last().push(list.last()));
        assert(put_sorted(list, name).to_multiset() =~= list.to_multiset().insert(name));
    }
}

/// Only names that were ready or that an edge leads to leave the queue.
pub proof fn drained_from(
    list: Seq<(Seq<char>, Seq<char>)>,
    left: Map<Seq<char>, nat>,
    ready: Seq<Seq<char>>,
    name: Seq<char>,
)
    requires
        drain(list, left, ready).contains(name),
    ensures
        ready.contains(name) || exists|i: int| 0 <= i < list.len() && (#[trigger] list[i]).1 == name,
    decreases list.len() + ready.len(),
{
    if ready.len() > 0 {
        let n = list.len() as int;
        released_at_most(left, list, ready[0], n);
        let (less, freed) = release(left, list, ready[0], n);
        let rest = others(list, ready[0], n);
        let tail = drain(rest, less, ready.drop_first() + freed);
        let k = choose|k: int|
            0 <= k < drain(list, left, ready).len() && drain(list, left, ready)[k] == name;
        if k == 0 {
            assert(ready[0] == name);
        } else {
            assert(tail[k - 1] == name);
            drained_from(rest, less, ready.drop_first() + freed, name);
            if (ready.drop_first() + freed).contains(name) {
                let q = ready.drop_first() + freed;
                let j = choose|j: int| 0 <= j < q.len() && q[j] == name;
                if j < ready.len() - 1 {
                    assert(ready[j + 1] == name);
                } else {
                    assert(freed[j - (ready.len() - 1)] == name);
                    freed_from(left, list, ready[0], n, name);
                }
            } else {
                let i = choose|i: int| 0 <= i < rest.len() && (#[trigger] rest[i]).1 == name;
                others_from(list, ready[0], n, rest[i]);
            }
        }
    }
}

proof fn freed_from(
    left: Map<Seq<char>, nat>,
    list: Seq<(Seq<char>, Seq<char>)>,
    from: Seq<char>,
    n: int,
    name: Seq<char>,
)
    requires
        0 <= n <= list.len(),
        release(left, list, from, n).1.contains(name),
    ensures
        exists|i: int| 0 <= i < n && (#[trigger] list[i]) == (from, name),
    decreases n,
{
    if n > 0 {
        let less = release(left, list, from, n - 1).1;
        let here = release(left, list, from, n).1;
        let k = choose|k: int| 0 <= k < here.len() && here[k] == name;
        if k < less.len() {
            assert(less[k] == name);
            freed_from(left, list, from, n - 1, name);
        } else {
            assert(list[n - 1] == (from, name));
        }
    }
}

pub proof fn others_from(
    list: Seq<(Seq<char>, Seq<char>)>,
    from: Seq<char>,
    n: int,
    edge: (Seq<char>, Seq<char>),
)
    requires
        0 <= n <= list.len(),
    ensures
        others(list, from, n).contains(edge) <==> edge.0 != from && exists|i: int|
            0 <= i < n && (#[trigger] list[i]) == edge,
    decreases n,
{
    if n > 0 {
        others_from(list, from, n - 1, edge);
        let less = others(list, from, n - 1);
        let here = others(list, from, n);
        if here.contains(edge) {
            let k = choose|k: int| 0 <= k < here.len() && here[k] == edge;
            if k < less.len() {
                assert(less[k] == edge);
                assert(less.contains(edge));
            } else {
                assert(list[n - 1] == edge);
            }
        }
        if edge.0 != from && exists|i: int| 0 <= i < n && (#[trigger] list[i]) == edge {
            let i = choose|i: int| 0 <= i < n && (#[trigger] list[i]) == edge;
            if i < n - 1 {
                assert(less.contains(edge));
                let k = choose|k: int| 0 <= k < less.len() && less[k] == edge;
                assert(here[k] == edge);
            } else {
                assert(here[here.len() - 1] == edge);
            }
        }
    } else {
        assert(others(list, from, n).len() == 0);
    }
}

/// An edge leads to a plugin that waits for what it leads from.
pub proof fn edge_of(list: Seq<Node>, edge: (Seq<char>, Seq<char>))
    ensures
        edges(list).contains(edge) <==> exists|k: int|
            0 <= k < list.len() && (#[trigger] list[k]).name == edge.1 && list[k].deps.contains(
                edge.0,
            ),
    decreases list.len(),
{
    if list.len() > 0 {
        let less = list.drop_last();
        edge_of(less, edge);
        let node = list.last();
        let more = node.deps.map_values(|d: Seq<char>| (d, node.name));
        assert(edges(list) == edges(less) + more);
        if edges(list).contains(edge) {
            let i = choose|i: int| 0 <= i < edges(list).len() && edges(list)[i] == edge;
            if i < edges(less).len() {
                assert(edges(less)[i] == edge);
                assert(edges(less).contains(edge));
                let k = choose|k: int|
                    0 <= k < less.len() && (#[trigger] less[k]).name == edge.1
                        && less[k].deps.contains(edge.0);
                assert(list[k] == less[k]);
            } else {
                let d = i - edges(less).len();
                assert(more[d] == edge);
                assert(node.deps[d] == edge.0);
                assert(list[list.len() - 1].deps.contains(edge.0));
            }
        }
        if exists|k: int|
            0 <= k < list.len() && (#[trigger] list[k]).name == edge.1 && list[k].deps.contains(
                edge.0,
            ) {
            let k = choose|k: int|
                0 <= k < list.len() && (#[trigger] list[k]).name == edge.1
                    && list[k].deps.contains(edge.0);
            if k < less.len() {
                assert(less[k] == list[k]);
                assert(edges(less).contains(edge));
                let i = choose|i: int| 0 <= i < edges(less).len() && edges(less)[i] == edge;
                assert(edges(list)[i] == edge);
            } else {
                let d = choose|d: int| 0 <= d < node.deps.len() && node.deps[d] == edge.0;
                assert(more[d] == edge);
                assert(edges(list)[edges(less).len() + d] == edge);
            }
        }
    } else {
        assert(edges(list).len() == 0);
    }
}

pub proof fn idle_from(list: Seq<Seq<char>>, left: Map<Seq<char>, nat>, n: int, name: Seq<char>)
    requires
        0 <= n <= list.len(),
    ensures
        idle_upto(list, left, n).contains(name) <==> left_of(left, name) == 0 && exists|i: int|
            0 <= i < n && (#[trigger] list[i]) == name,
    decreases n,
{
    if n > 0 {
        idle_from(list, left, n - 1, name);
        let less = idle_upto(list, left, n - 1);
        let here = idle_upto(list, left, n);
        if here.contains(name) {
            let k = choose|k: int| 0 <= k < here.len() && here[k] == name;
            if k < less.len() {
                assert(less[k] == name);
                assert(less.contains(name));
            } else {
                assert(list[n - 1] == name);
            }
        }
        if left_of(left, name) == 0 && exists|i: int| 0 <= i < n && (#[trigger] list[i]) == name {
            let i = choose|i: int| 0 <= i < n && (#[trigger] list[i]) == name;
            if i < n - 1 {
                assert(less.contains(name));
                let k = choose|k: int| 0 <= k < less.len() && less[k] == name;
                assert(here[k] == name);
            } else {
                assert(here[here.len() - 1] == name);
            }
        }
    } else {
        assert(idle_upto(list, left, n).len() == 0);
    }
}

/// Only plugins to be ordered are ordered.
pub proof fn ordered_is_node(list: Seq<Node>, name: Seq<char>)
    requires
        node_order(list).contains(name),
    ensures
        node_names(list).contains(name),
{
    let all = sorted(node_names(list));
    let ready = idle_upto(all, counts(list), all.len() as int);
    drained_from(edges(list), counts(list), ready, name);
    if ready.contains(name) {
        idle_from(all, counts(list), all.len() as int, name);
        let i = choose|i: int| 0 <= i < all.len() && (#[trigger] all[i]) == name;
        assert(all.contains(name));
        sorted_names(node_names(list));
    } else {
        let i = choose|i: int| 0 <= i < edges(list).len() && (#[trigger] edges(list)[i]).1 == name;
        let edge = edges(list)[i];
        assert(edges(list).contains(edge));
        edge_of(list, edge);
        let k = choose|k: int|
            0 <= k < list.len() && (#[trigger] list[k]).name == edge.1 && list[k].deps.contains(
                edge.0,
            );
        assert(node_names(list)[k] == name);
    }
}

/// The names of a list occur in it, and each name occurs once among the first occurrences.
pub proof fn firsts_hold(list: Seq<Seq<char>>, n: int)
    requires
        0 <= n <= list.len(),
    ensures
        firsts(list, n).no_duplicates(),
        forall|name: Seq<char>|
            firsts(list, n).contains(name) <==> exists|i: int|
                0 <= i < n && (#[trigger] list[i]) == name,
    decreases n,
{
    if n > 0 {
        firsts_hold(list, n - 1);
        let less = firsts(list, n - 1);
        let here = firsts(list, n);
        assert forall|name: Seq<char>| here.contains(name) <==> exists|i: int|
            0 <= i < n && (#[trigger] list[i]) == name by {
            if here.contains(name) {
                let k = choose|k: int| 0 <= k < here.len() && here[k] == name;
                if k < less.len() {
                    assert(less[k] == name);
                    assert(less.contains(name));
                } else {
                    assert(list[n - 1] == name);
                }
            }
            if exists|i: int| 0 <= i < n && (#[trigger] list[i]) == name {
                let i = choose|i: int| 0 <= i < n && (#[trigger] list[i]) == name;
                if i < n - 1 {
                    assert(less.contains(name));
                    let k = choose|k: int| 0 <= k < less.len() && less[k] == name;
                    assert(here[k] == name);
                } else if !less.contains(name) {
                    assert(here[here.len() - 1] == name);
                }
            }
        }
    } else {
        assert(firsts(list, n).len() == 0);
    }
}

/// A plugin to be ordered stands for a manifest.
pub proof fn node_has_place(ms: Seq<Manifest>, name: Seq<char>)
    ensures
        node_names(nodes(ms)).contains(name) <==> place(ms, name) is Some,
{
    let list = nodes(ms);
    let open = pending(ms);
    pending_holds(ms, ms.len() as int);
    place_holds(ms, name, ms.len() as int);
    if node_names(list).contains(name) {
        let k = choose|k: int| 0 <= k < node_names(list).len() && node_names(list)[k] == name;
        assert(list[k].name == name);
        assert(ms[open[k]].name@ == name);
        assert(unmet(ms, ms[open[k]]) is None);
    }
    if place(ms, name) is Some {
        let at = place(ms, name)->0;
        assert(open.contains(at));
        let k = choose|k: int| 0 <= k < open.len() && open[k] == at;
        assert(list[k].name == name);
        assert(node_names(list)[k] == name);
    }
}

proof fn missing_from(list: Seq<Seq<char>>, from: Seq<Seq<char>>, n: int, name: Seq<char>)
    requires
        0 <= n <= list.len(),
    ensures
        missing_upto(list, from, n).contains(name) <==> !from.contains(name) && exists|i: int|
            0 <= i < n && (#[trigger] list[i]) == name,
    decreases n,
{
    if n > 0 {
        missing_from(list, from, n - 1, name);
        let less = missing_upto(list, from, n - 1);
        let here = missing_upto(list, from, n);
        if here.contains(name) {
            let k = choose|k: int| 0 <= k < here.len() && here[k] == name;
            if k < less.len() {
                assert(less[k] == name);
                assert(less.contains(name));
            } else {
                assert(list[n - 1] == name);
            }
        }
        if !from.contains(name) && exists|i: int| 0 <= i < n && (#[trigger] list[i]) == name {
            let i = choose|i: int| 0 <= i < n && (#[trigger] list[i]) == name;
            if i < n - 1 {
                assert(less.contains(name));
                let k = choose|k: int| 0 <= k < less.len() && less[k] == name;
                assert(here[k] == name);
            } else {
                assert(here[here.len() - 1] == name);
            }
        }
    } else {
        assert(missing_upto(list, from, n).len() == 0);
    }
}

/// A name is caught in a cycle exactly when its plugin is to be ordered and is not.
pub proof fn cycle_holds(list: Seq<Node>, name: Seq<char>)
    ensures
        node_cycle(list).contains(name) <==> node_names(list).contains(name) && !node_order(
            list,
        ).contains(name),
{
    let all = sorted(node_names(list));
    missing_from(all, node_order(list), all.len() as int, name);
    sorted_names(node_names(list));
    if all.contains(name) {
        let i = choose|i: int| 0 <= i < all.len() && all[i] == name;
    }
    if exists|i: int| 0 <= i < all.len() && (#[trigger] all[i]) == name {
        assert(all.contains(name));
    }
}

/// What is to be ordered: who waits for whom, for how many plugins each name waits, and the
/// names in order.
struct Work {
    edges: Vec<(String, String)>,
    left: NameMap<usize>,
    names: Vec<String>,
}

/// Collects what is to be ordered.
fn collect_work(
    manifests: &Vec<Manifest>,
    open: &Vec<usize>,
    versions: &NameMap<Version>,
    out_of: &NameMap<()>,
) -> (r: Work)
    requires
        versions_of(*versions, manifests@),
        forall|name: Seq<char>| #[trigger] out_of.has(name) == dropped(manifests@, name),
        open@.len() == pending(manifests@).len(),
        forall|k: int| 0 <= k < open@.len() ==> #[trigger] open@[k] as int == pending(manifests@)[k],
    ensures
        r.left.wf(),
        edge_views(r.edges@) == edges(nodes(manifests@)),
        left_view(r.left) == counts(nodes(manifests@)),
        text::texts(r.names@) == sorted(node_names(nodes(manifests@))),
{
    let ghost ms = manifests@;
    let ghost list = nodes(ms);
    let n: usize = open.len();
    let mut waits: Vec<(String, String)> = Vec::new();
    let mut left: NameMap<usize> = NameMap::new();
    let mut sorted_list: Vec<String> = Vec::new();
    let mut k: usize = 0;
    proof {
        pending_holds(ms, ms.len() as int);
        assert(edge_views(waits@) =~= edges(list.subrange(0, 0)));
        assert(left_view(left) =~= counts(list.subrange(0, 0)));
        assert(text::texts(sorted_list@) =~= sorted(node_names(list.subrange(0, 0))));
    }
    while k < n
        invariant
            ms == manifests@,
            list == nodes(ms),
            n == open.len(),
            n == list.len(),
            k <= n,
            versions_of(*versions, ms),
            forall|name: Seq<char>| #[trigger] out_of.has(name) == dropped(ms, name),
            open@.len() == pending(ms).len(),
            forall|j: int| 0 <= j < open@.len() ==> #[trigger] open@[j] as int == pending(ms)[j],
            forall|j: int| 0 <= j < open@.len() ==> 0 <= #[trigger] pending(ms)[j] < ms.len(),
            left.wf(),
            edge_views(waits@) == edges(list.subrange(0, k as int)),
            left_view(left) == counts(list.subrange(0, k as int)),
            text::texts(sorted_list@) == sorted(node_names(list.subrange(0, k as int))),
        decreases n - k,
    {
        let at: usize = open[k];
        let manifest = &manifests[at];
        let deps = wired_names(manifest, versions, out_of, Ghost(ms));
        let ghost here = list.subrange(0, k + 1);
        let ghost node = list[k as int];
        proof {
            assert(here.drop_last() =~= list.subrange(0, k as int));
            assert(here.last() == node);
            assert(node.name == manifest.name@);
            assert(node.deps == text::texts(deps@));
        }
        set_left(&mut left, &manifest.name, deps.len());
        let m: usize = deps.len();
        let ghost done = edge_views(waits@);
        let ghost more = node.deps.map_values(|d: Seq<char>| (d, node.name));
        let mut d: usize = 0;
        proof {
            assert(done + more.subrange(0, 0) =~= done);
        }
        while d < m
            invariant
                m == deps.len(),
                d <= m,
                node.deps == text::texts(deps@),
                node.name == manifest.name@,
                more == node.deps.map_values(|d: Seq<char>| (d, node.name)),
                edge_views(waits@) == done + more.subrange(0, d as int),
            decreases m - d,
        {
            let ghost had = edge_views(waits@);
            waits.push((deps[d].clone(), manifest.name.clone()));
            proof {
                assert(edge_views(waits@) =~= had.push((deps@[d as int]@, manifest.name@)));
                assert(more[d as int] == (deps@[d as int]@, manifest.name@));
                assert(done + more.subrange(0, d + 1) =~= (done + more.subrange(0, d as int)).push(
                    more[d as int],
                ));
            }
            d = d + 1;
        }
        proof {
            assert(more.subrange(0, m as int) =~= more);
            assert(edges(here) == edges(here.drop_last()) + here.last().deps.map_values(
                |d: Seq<char>| (d, here.last().name),
            ));
            assert(here.last().deps.map_values(|d: Seq<char>| (d, here.last().name)) =~= more);
            assert(node_names(here).drop_last() =~= node_names(here.drop_last()));
            assert(node_names(here).last() == manifest.name@);
        }
        put_name(&mut sorted_list, manifest.name.clone());
        k = k + 1;
    }
    proof {
        assert(list.subrange(0, n as int) =~= list);
    }
    Work { edges: waits, left, names: sorted_list }
}

/// The names that wait for nothing.
fn idle_names(list: &Vec<String>, left: &NameMap<usize>) -> (r: Vec<String>)
    requires
        left.wf(),
    ensures
        text::texts(r@) == idle_upto(text::texts(list@), left_view(*left), list@.len() as int),
{
    let n: usize = list.len();
    let mut out: Vec<String> = Vec::new();
    let mut i: usize = 0;
    proof {
        assert(text::texts(out@) =~= idle_upto(text::texts(list@), left_view(*left), 0));
    }
    while i < n
        invariant
            n == list.len(),
            i <= n,
            left.wf(),
            text::texts(out@) == idle_upto(text::texts(list@), left_view(*left), i as int),
        decreases n - i,
    {
        let ghost had = text::texts(out@);
        let waits: usize = match left.get(list[i].as_str()) {
            Some(count) => *count,
            None => 0,
        };
        proof {
            let name = list@[i as int]@;
            assert(text::texts(list@)[i as int] == name);
            assert(left.has(name) == (left.at(name) is Some));
            assert(left_of(left_view(*left), name) == waits);
        }
        if waits == 0 {
            out.push(list[i].clone());
            proof {
                assert(text::texts(out@) =~= had.push(list@[i as int]@));
            }
        }
        i = i + 1;
    }
    out
}

/// The names that do not occur in another list.
fn missing_names(list: &Vec<String>, from: &Vec<String>) -> (r: Vec<String>)
    ensures
        text::texts(r@) == missing_upto(
            text::texts(list@),
            text::texts(from@),
            list@.len() as int,
        ),
{
    let n: usize = list.len();
    let mut out: Vec<String> = Vec::new();
    let mut i: usize = 0;
    proof {
        assert(text::texts(out@) =~= missing_upto(text::texts(list@), text::texts(from@), 0));
    }
    while i < n
        invariant
            n == list.len(),
            i <= n,
            text::texts(out@) == missing_upto(
                text::texts(list@),
                text::texts(from@),
                i as int,
            ),
        decreases n - i,
    {
        let ghost had = text::texts(out@);
        proof {
            assert(text::texts(list@)[i as int] == list@[i as int]@);
        }
        if !holds_name(from, list[i].as_str()) {
            out.push(list[i].clone());
            proof {
                assert(text::texts(out@) =~= had.push(list@[i as int]@));
            }
        }
        i = i + 1;
    }
    out
}

/// A copy of a list of strings.
pub fn copy_list(list: &Vec<String>) -> (r: Vec<String>)
    ensures
        r@ == list@,
{
    let n: usize = list.len();
    let mut out: Vec<String> = Vec::new();
    let mut i: usize = 0;
    while i < n
        invariant
            n == list.len(),
            i <= n,
            out@ =~= list@.subrange(0, i as int),
        decreases n - i,
    {
        out.push(list[i].clone());
        i = i + 1;
    }
    proof {
        assert(out@ =~= list@);
    }
    out
}

/// The manifests at places, in the order of the places.
fn pick(manifests: Vec<Manifest>, places: &Vec<usize>) -> (r: Vec<Manifest>)
    requires
        places@.no_duplicates(),
        forall|k: int| 0 <= k < places@.len() ==> #[trigger] places@[k] < manifests@.len(),
    ensures
        r@.len() == places@.len(),
        forall|k: int| 0 <= k < r@.len() ==> #[trigger] r@[k] == manifests@[places@[k] as int],
{
    let ghost ms = manifests@;
    let n: usize = manifests.len();
    let mut given = manifests;
    let mut slots: Vec<Option<Manifest>> = Vec::new();
    // Emptied from the end: slot `i` holds manifest `n - 1 - i`.
    while given.len() > 0
        invariant
            n == ms.len(),
            given@.len() + slots@.len() == n,
            forall|i: int| 0 <= i < given@.len() ==> #[trigger] given@[i] == ms[i],
            forall|i: int|
                0 <= i < slots@.len() ==> #[trigger] slots@[i] == Some(ms[n - 1 - i]),
        decreases given@.len(),
    {
        match given.pop() {
            Some(manifest) => {
                slots.push(Some(manifest));
            },
            None => {},
        }
    }
    let m: usize = places.len();
    let mut out: Vec<Manifest> = Vec::new();
    let mut k: usize = 0;
    while k < m
        invariant
            n == ms.len(),
            m == places.len(),
            k <= m,
            slots@.len() == n,
            places@.no_duplicates(),
            forall|j: int| 0 <= j < places@.len() ==> #[trigger] places@[j] < ms.len(),
            forall|i: int|
                0 <= i < n && (forall|j: int| 0 <= j < k ==> #[trigger] places@[j] != i)
                    ==> #[trigger] slots@[n - 1 - i] == Some(ms[i]),
            out@.len() == k,
            forall|j: int| 0 <= j < k ==> #[trigger] out@[j] == ms[places@[j] as int],
        decreases m - k,
    {
        let at: usize = places[k];
        let slot: usize = n - 1 - at;
        let ghost was = slots@;
        proof {
            assert forall|j: int| 0 <= j < k implies #[trigger] places@[j] != at by {
                assert(places@[j] != places@[k as int]);
            }
            assert(was[n - 1 - at] == Some(ms[at as int]));
        }
        let mut taken: Option<Manifest> = None;
        std::mem::swap(&mut taken, &mut slots[slot]);
        match taken {
            Some(manifest) => {
                out.push(manifest);
            },
            None => {},
        }
        proof {
            assert forall|i: int|
                0 <= i < n && (forall|j: int| 0 <= j < k + 1 ==> #[trigger] places@[j] != i)
                implies #[trigger] slots@[n - 1 - i] == Some(ms[i]) by {
                assert(places@[k as int] != i);
                assert(was[n - 1 - i] == Some(ms[i]));
            }
        }
        k = k + 1;
    }
    out
}

/// What comes of ordering manifests.
pub(crate) struct Ordered {
    /// The manifests in load order.
    pub queue: Vec<Manifest>,
    /// Those that cannot be ordered.
    pub failures: Vec<LoadFailure>,
    /// Those whose name stands for another.
    pub displaced: Vec<LoadFailure>,
}

/// The failures of the manifests whose name stands for another.
fn find_displaced(manifests: &Vec<Manifest>, kept: &Vec<bool>) -> (r: Vec<LoadFailure>)
    requires
        kept@.len() == manifests@.len(),
        forall|i: int|
            0 <= i < kept@.len() ==> #[trigger] kept@[i] == (unmet(manifests@, manifests@[i])
                is None),
    ensures
        crate::failure::failed(r@) == displaced(manifests@),
{
    let n: usize = manifests.len();
    let mut out: Vec<LoadFailure> = Vec::new();
    let mut i: usize = 0;
    proof {
        assert(crate::failure::failed(out@) =~= displaced_upto(manifests@, 0));
    }
    while i < n
        invariant
            n == manifests@.len(),
            i <= n,
            kept@.len() == manifests@.len(),
            forall|j: int|
                0 <= j < kept@.len() ==> #[trigger] kept@[j] == (unmet(
                    manifests@,
                    manifests@[j],
                ) is None),
            crate::failure::failed(out@) == displaced_upto(manifests@, i as int),
        decreases n - i,
    {
        let manifest = &manifests[i];
        if kept[i] && place_of(manifests, kept, manifest.name.as_str()) != i {
            let mut taken = "another plugin is already registered as `".to_owned();
            taken.append(manifest.name.as_str());
            taken.append("`");
            let failure = LoadFailure {
                name: manifest.name.clone(),
                dir: manifest.dir.clone(),
                reason: FailureReason::Manifest(taken),
            };
            let ghost had = crate::failure::failed(out@);
            out.push(failure);
            proof {
                place_holds(manifests@, manifest.name@, n as int);
                assert(is_displaced(manifests@, i as int));
                assert(failure@ == displaced_failure(*manifest));
                assert(crate::failure::failed(out@) =~= had.push(failure@));
            }
        } else {
            proof {
                assert(!is_displaced(manifests@, i as int)) by {
                    place_holds(manifests@, manifest.name@, n as int);
                }
            }
        }
        i = i + 1;
    }
    out
}

/// Orders manifests so every plugin follows the dependencies it is wired to.
pub(crate) fn order_parts(manifests: Vec<Manifest>) -> (r: Ordered)
    ensures
        r.queue@.len() == load_order(manifests@).len(),
        forall|k: int|
            0 <= k < r.queue@.len() ==> #[trigger] r.queue@[k] == manifests@[place(
                manifests@,
                load_order(manifests@)[k],
            )->0],
        crate::failure::failed(r.failures@) == order_failures(manifests@),
        crate::failure::failed(r.displaced@) == displaced(manifests@),
{
    let ghost ms = manifests@;
    let n: usize = manifests.len();
    let versions = known_versions(&manifests);
    let mut failures: Vec<LoadFailure> = Vec::new();
    let mut out_of: NameMap<()> = NameMap::new();
    let mut open: Vec<usize> = Vec::new();
    let mut kept: Vec<bool> = Vec::new();
    let mut i: usize = 0;
    proof {
        assert(crate::failure::failed(failures@) =~= unmet_upto(ms, 0));
    }
    while i < n
        invariant
            ms == manifests@,
            n == manifests.len(),
            i <= n,
            versions_of(versions, ms),
            crate::failure::failed(failures@) == unmet_upto(ms, i as int),
            out_of.wf(),
            forall|name: Seq<char>| #[trigger]
                out_of.has(name) <==> exists|j: int|
                    0 <= j < i && #[trigger] ms[j].name@ == name && unmet(ms, ms[j]) is Some,
            open@.len() == pending_upto(ms, i as int).len(),
            forall|k: int|
                0 <= k < open@.len() ==> #[trigger] open@[k] as int == pending_upto(ms, i as int)[k],
            kept@.len() == i,
            forall|j: int| 0 <= j < i ==> #[trigger] kept@[j] == (unmet(ms, ms[j]) is None),
        decreases n - i,
    {
        let manifest = &manifests[i];
        let ghost had = crate::failure::failed(failures@);
        match check_dependencies(manifest, &versions, Ghost(ms)) {
            Ok(_) => {
                open.push(i);
                kept.push(true);
                proof {
                    assert forall|name: Seq<char>| #[trigger]
                        out_of.has(name) <==> exists|j: int|
                            0 <= j < i + 1 && #[trigger] ms[j].name@ == name && unmet(ms, ms[j])
                                is Some by {}
                }
            },
            Err(reason) => {
                let ghost then = out_of;
                let failure = LoadFailure {
                    name: manifest.name.clone(),
                    dir: manifest.dir.clone(),
                    reason,
                };
                failures.push(failure);
                kept.push(false);
                out_of.insert(manifest.name.clone(), ());
                proof {
                    assert(crate::failure::failed(failures@) =~= had.push(failure@));
                    assert forall|name: Seq<char>| #[trigger]
                        out_of.has(name) <==> exists|j: int|
                            0 <= j < i + 1 && #[trigger] ms[j].name@ == name && unmet(ms, ms[j])
                                is Some by {
                        assert(out_of.has(name) == (out_of.at(name) is Some));
                        assert(then.has(name) == (then.at(name) is Some));
                        if name == manifest.name@ {
                            assert(ms[i as int].name@ == name);
                        } else if out_of.has(name) {
                            assert(then.has(name));
                        }
                    }
                }
            },
        }
        i = i + 1;
    }
    proof {
        assert forall|name: Seq<char>| #[trigger] out_of.has(name) == dropped(ms, name) by {}
    }
    let work = collect_work(&manifests, &open, &versions, &out_of);
    let idle = idle_names(&work.names, &work.left);
    let order = drain_queue(work.edges, work.left, idle);
    let caught = missing_names(&work.names, &order);
    let ghost list = nodes(ms);
    proof {
        assert(text::texts(order@) == node_order(list));
        assert(text::texts(caught@) == cycle(ms));
    }
    let stuck = distinct(&caught);
    let m: usize = stuck.len();
    let mut k: usize = 0;
    let ghost left_out = unmet_upto(ms, ms.len() as int);
    proof {
        assert(text::texts(stuck@) == firsts(cycle(ms), cycle(ms).len() as int));
        assert(left_out + cycle_failures(ms).subrange(0, 0) =~= left_out);
    }
    while k < m
        invariant
            ms == manifests@,
            m == stuck.len(),
            k <= m,
            kept@.len() == ms.len(),
            forall|j: int| 0 <= j < ms.len() ==> #[trigger] kept@[j] == (unmet(ms, ms[j]) is None),
            text::texts(caught@) == cycle(ms),
            text::texts(stuck@) == firsts(cycle(ms), cycle(ms).len() as int),
            crate::failure::failed(failures@) == left_out + cycle_failures(ms).subrange(
                0,
                k as int,
            ),
        decreases m - k,
    {
        let name = &stuck[k];
        proof {
            let all = cycle(ms);
            firsts_hold(all, all.len() as int);
            assert(text::texts(stuck@)[k as int] == name@);
            assert(firsts(all, all.len() as int).contains(name@));
            let c = choose|c: int| 0 <= c < all.len() && (#[trigger] all[c]) == name@;
            assert(all.contains(name@));
            cycle_holds(nodes(ms), name@);
            node_has_place(ms, name@);
        }
        let at: usize = place_of(&manifests, &kept, name.as_str());
        let ghost had = crate::failure::failed(failures@);
        let failure = LoadFailure {
            name: name.clone(),
            dir: manifests[at].dir.clone(),
            reason: FailureReason::DependencyCycle(copy_list(&caught)),
        };
        failures.push(failure);
        proof {
            assert(crate::failure::failed(failures@) =~= had.push(failure@));
            assert(cycle_failures(ms)[k as int] == cycle_failure(ms, name@));
            assert(failure@ == cycle_failure(ms, name@));
            assert(left_out + cycle_failures(ms).subrange(0, k + 1) =~= (left_out
                + cycle_failures(ms).subrange(0, k as int)).push(failure@));
        }
        k = k + 1;
    }
    proof {
        assert(cycle_failures(ms).subrange(0, m as int) =~= cycle_failures(ms));
    }
    let chosen = distinct(&order);
    let count: usize = chosen.len();
    let mut places: Vec<usize> = Vec::new();
    let mut p: usize = 0;
    proof {
        let all = node_order(list);
        firsts_hold(all, all.len() as int);
        assert(text::texts(chosen@) == load_order(ms));
    }
    while p < count
        invariant
            ms == manifests@,
            count == chosen.len(),
            p <= count,
            kept@.len() == ms.len(),
            forall|j: int| 0 <= j < ms.len() ==> #[trigger] kept@[j] == (unmet(ms, ms[j]) is None),
            text::texts(chosen@) == load_order(ms),
            places@.len() == p,
            forall|j: int|
                0 <= j < p ==> place(ms, load_order(ms)[j]) == Some(#[trigger] places@[j] as int)
                    && places@[j] < ms.len(),
        decreases count - p,
    {
        let name = &chosen[p];
        proof {
            let all = node_order(nodes(ms));
            firsts_hold(all, all.len() as int);
            assert(text::texts(chosen@)[p as int] == name@);
            assert(load_order(ms).contains(name@));
            let c = choose|c: int| 0 <= c < all.len() && (#[trigger] all[c]) == name@;
            assert(all.contains(name@));
            ordered_is_node(nodes(ms), name@);
            node_has_place(ms, name@);
        }
        let at: usize = place_of(&manifests, &kept, name.as_str());
        places.push(at);
        p = p + 1;
    }
    proof {
        assert forall|a: int, b: int| 0 <= a < places@.len() && 0 <= b < places@.len() && a
            != b implies places@[a] != places@[b] by {
            let na = load_order(ms)[a];
            let nb = load_order(ms)[b];
            place_holds(ms, na, ms.len() as int);
            place_holds(ms, nb, ms.len() as int);
            let all = node_order(list);
            firsts_hold(all, all.len() as int);
            assert(na != nb);
        }
    }
    let displaced = find_displaced(&manifests, &kept);
    let queue = pick(manifests, &places);
    Ordered { queue, failures, displaced }
}

/// Orders manifests so every plugin follows the dependencies it is wired to.
///
/// Plugins whose requirements cannot be met, plugins caught in a cycle, and plugins whose name
/// stands for another are returned as failures; everything else still loads.
pub fn resolve_order(manifests: Vec<Manifest>) -> (r: (Vec<Manifest>, Vec<LoadFailure>))
    ensures
        r.0@.len() == load_order(manifests@).len(),
        forall|k: int|
            0 <= k < r.0@.len() ==> #[trigger] r.0@[k] == manifests@[place(
                manifests@,
                load_order(manifests@)[k],
            )->0],
        crate::failure::failed(r.1@) == order_failures(manifests@) + displaced(manifests@),
        r.0@.len() + r.1@.len() == manifests@.len(),
        forall|k: int|
            0 <= k < r.0@.len() ==> manifests@.contains(#[trigger] r.0@[k]) && root_meets(
                manifests@,
                r.0@[k],
            ),
        forall|i: int|
            0 <= i < manifests@.len() && !root_meets(manifests@, #[trigger] manifests@[i])
                ==> reports_missing(crate::failure::failed(r.1@), manifests@, manifests@[i]),
{
    let ghost ms = manifests@;
    let Ordered { queue, mut failures, mut displaced } = order_parts(manifests);
    let ghost early = crate::failure::failed(failures@);
    let ghost late = crate::failure::failed(displaced@);
    failures.append(&mut displaced);
    proof {
        assert(crate::failure::failed(failures@) =~= early + late);
        assert(crate::failure::failed(failures@).len() == failures@.len());
        order_leaves_nothing_out(ms);
        assert forall|k: int| 0 <= k < queue@.len() implies ms.contains(#[trigger] queue@[k])
            && root_meets(ms, queue@[k]) by {
            ordered_plugins_are_met(ms, k);
            assert(ms[place(ms, load_order(ms)[k])->0] == queue@[k]);
        }
        assert forall|i: int| 0 <= i < ms.len() && !root_meets(ms, #[trigger] ms[i]) implies reports_missing(
            crate::failure::failed(failures@),
            ms,
            ms[i],
        ) by {
            unmet_plugins_are_reported(ms, i);
            let f = choose|f: int|
                {
                    &&& 0 <= f < early.len()
                    &&& (#[trigger] early[f]).name == ms[i].name@
                    &&& early[f].dir == ms[i].dir@
                    &&& crate::dependency_laws::tells_what_is_missing(ms, ms[i], early[f].reason)
                };
            assert(crate::failure::failed(failures@)[f] == early[f]);
        }
    }
    (queue, failures)
}

/// The names that stand for one of the first `n` manifests.
spec fn standing_upto(ms: Seq<Manifest>, n: int) -> Seq<Seq<char>>
    decreases n,
{
    if n <= 0 {
        Seq::empty()
    } else if unmet(ms, ms[n - 1]) is None && place(ms, ms[n - 1].name@) == Some(n - 1) {
        standing_upto(ms, n - 1).push(ms[n - 1].name@)
    } else {
        standing_upto(ms, n - 1)
    }
}

proof fn standing_holds(ms: Seq<Manifest>, n: int)
    requires
        0 <= n <= ms.len(),
    ensures
        standing_upto(ms, n).no_duplicates(),
        forall|name: Seq<char>| #[trigger]
            standing_upto(ms, n).contains(name) <==> (place(ms, name) matches Some(at) && at < n),
        standing_upto(ms, n).len() + displaced_upto(ms, n).len() + unmet_upto(ms, n).len() == n,
    decreases n,
{
    if n <= 0 {
        assert forall|name: Seq<char>| #[trigger] standing_upto(ms, n).contains(name) <==> (place(
            ms,
            name,
        ) matches Some(at) && at < n) by {
            place_holds(ms, name, ms.len() as int);
        }
    } else {
        standing_holds(ms, n - 1);
        let less = standing_upto(ms, n - 1);
        let here = standing_upto(ms, n);
        let last = ms[n - 1].name@;
        let stands = unmet(ms, ms[n - 1]) is None && place(ms, last) == Some(n - 1);
        assert forall|name: Seq<char>| #[trigger] here.contains(name) <==> (place(ms, name) matches Some(
            at,
        ) && at < n) by {
            place_holds(ms, name, ms.len() as int);
            assert(less.contains(name) <==> (place(ms, name) matches Some(at) && at < n - 1));
            if stands {
                assert(here[here.len() - 1] == last);
                if less.contains(name) {
                    let k = choose|k: int| 0 <= k < less.len() && less[k] == name;
                    assert(here[k] == name);
                }
                if here.contains(name) && name != last {
                    let k = choose|k: int| 0 <= k < here.len() && here[k] == name;
                    assert(less[k] == name);
                }
            }
        }
        if stands {
            assert(!less.contains(last));
        }
    }
}

/// Nothing is lost: of the manifests, each is ordered or reported, and counted once.
pub proof fn order_leaves_nothing_out(ms: Seq<Manifest>)
    ensures
        load_order(ms).len() + order_failures(ms).len() + displaced(ms).len() == ms.len(),
{
    let n = ms.len() as int;
    let order = node_order(nodes(ms));
    let caught = cycle(ms);
    let stuck = firsts(caught, caught.len() as int);
    let all = load_order(ms) + stuck;
    let standing = standing_upto(ms, n);
    standing_holds(ms, n);
    firsts_hold(order, order.len() as int);
    firsts_hold(caught, caught.len() as int);
    assert forall|name: Seq<char>| #[trigger] load_order(ms).contains(name) <==> order.contains(
        name,
    ) by {}
    assert forall|name: Seq<char>| #[trigger] stuck.contains(name) <==> caught.contains(name) by {}
    assert forall|name: Seq<char>|
        (#[trigger] standing.contains(name) <==> load_order(ms).contains(name) || stuck.contains(
            name,
        )) && !(load_order(ms).contains(name) && stuck.contains(name)) by {
        node_has_place(ms, name);
        cycle_holds(nodes(ms), name);
        place_holds(ms, name, n);
        if order.contains(name) {
            ordered_is_node(nodes(ms), name);
        }
    }
    assert(all.no_duplicates()) by {
        assert forall|i: int, j: int| 0 <= i < all.len() && 0 <= j < all.len() && i != j implies all[i]
            != all[j] by {
            let a = load_order(ms).len();
            if i < a && j >= a {
                assert(load_order(ms).contains(all[i]) && stuck.contains(all[j]));
                assert(standing.contains(all[i]));
            } else if j < a && i >= a {
                assert(load_order(ms).contains(all[j]) && stuck.contains(all[i]));
                assert(standing.contains(all[i]));
            } else if i < a {
                assert(load_order(ms)[i] != load_order(ms)[j]);
            } else {
                assert(stuck[i - a] != stuck[j - a]);
            }
        }
    }
    assert(all.to_set() =~= standing.to_set()) by {
        assert forall|name: Seq<char>| all.to_set().contains(name) <==> standing.to_set().contains(
            name,
        ) by {
            assert(standing.contains(name) <==> load_order(ms).contains(name) || stuck.contains(
                name,
            ));
            if all.contains(name) {
                let k = choose|k: int| 0 <= k < all.len() && all[k] == name;
                if k < load_order(ms).len() {
                    assert(load_order(ms)[k] == name);
                } else {
                    assert(stuck[k - load_order(ms).len()] == name);
                }
            }
            if load_order(ms).contains(name) {
                let k = choose|k: int| 0 <= k < load_order(ms).len() && load_order(ms)[k] == name;
                assert(all[k] == name);
            }
            if stuck.contains(name) {
                let k = choose|k: int| 0 <= k < stuck.len() && stuck[k] == name;
                assert(all[load_order(ms).len() + k] == name);
            }
        }
    }
    all.unique_seq_to_set();
    standing.unique_seq_to_set();
    assert(cycle_failures(ms).len() == stuck.len());
}

} // verus!
