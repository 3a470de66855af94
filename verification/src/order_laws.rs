//! What holds of the load order of a plugin root in which no two plugins share a name.

use crate::failure::Why;
use crate::manifest::Manifest;
use crate::resolve::{
    awaited, counts, cycle, cycle_holds, drain, dropped, edges, firsts, firsts_hold, idle_upto,
    load_order, node_names, node_order, nodes, order_failures, others, pending, place, place_holds,
    release, released_at_most, sorted, sorted_names, unmet, version_named, wired_upto, Node,
};
use crate::resolve;
use vstd::prelude::*;

verus! {

/// How many of the first `n` edges lead to a name.
spec fn leading(list: Seq<(Seq<char>, Seq<char>)>, to: Seq<char>, n: int) -> nat
    decreases n,
{
    if n <= 0 {
        0
    } else {
        leading(list, to, n - 1) + if list[n - 1].1 == to {
            1nat
        } else {
            0nat
        }
    }
}

/// How many of the first `n` edges lead from one name to another.
spec fn between(list: Seq<(Seq<char>, Seq<char>)>, from: Seq<char>, to: Seq<char>, n: int) -> nat
    decreases n,
{
    if n <= 0 {
        0
    } else {
        between(list, from, to, n - 1) + if list[n - 1] == (from, to) {
            1nat
        } else {
            0nat
        }
    }
}

proof fn between_at_most(
    list: Seq<(Seq<char>, Seq<char>)>,
    from: Seq<char>,
    to: Seq<char>,
    m: int,
    n: int,
)
    requires
        0 <= m <= n,
    ensures
        between(list, from, to, m) <= between(list, from, to, n) <= leading(list, to, n),
        m < n && list[m] == (from, to) ==> between(list, from, to, m) < between(list, from, to, n),
    decreases n,
{
    if n > 0 {
        if m < n {
            between_at_most(list, from, to, m, n - 1);
        } else {
            between_at_most(list, from, to, n - 1, n - 1);
        }
    }
}

proof fn leading_some(list: Seq<(Seq<char>, Seq<char>)>, to: Seq<char>, n: int)
    requires
        0 <= n <= list.len(),
    ensures
        leading(list, to, n) > 0 <==> exists|i: int| 0 <= i < n && (#[trigger] list[i]).1 == to,
    decreases n,
{
    if n > 0 {
        leading_some(list, to, n - 1);
        if list[n - 1].1 == to {
        } else if exists|i: int| 0 <= i < n && (#[trigger] list[i]).1 == to {
            let i = choose|i: int| 0 <= i < n && (#[trigger] list[i]).1 == to;
            assert(i < n - 1);
        }
    }
}

proof fn leading_push(
    list: Seq<(Seq<char>, Seq<char>)>,
    more: (Seq<char>, Seq<char>),
    to: Seq<char>,
    n: int,
)
    requires
        0 <= n <= list.len(),
    ensures
        leading(list.push(more), to, n) == leading(list, to, n),
    decreases n,
{
    if n > 0 {
        leading_push(list, more, to, n - 1);
    }
}

/// Taking out the edges from a name takes out those that lead from it to another.
proof fn others_leading(
    list: Seq<(Seq<char>, Seq<char>)>,
    from: Seq<char>,
    to: Seq<char>,
    n: int,
)
    requires
        0 <= n <= list.len(),
    ensures
        leading(others(list, from, n), to, others(list, from, n).len() as int) + between(
            list,
            from,
            to,
            n,
        ) == leading(list, to, n),
    decreases n,
{
    if n > 0 {
        others_leading(list, from, to, n - 1);
        let less = others(list, from, n - 1);
        if list[n - 1].0 != from {
            leading_push(less, list[n - 1], to, less.len() as int);
        }
    }
}

/// What a release does to what each name waits for, and whom it frees.
proof fn release_holds(
    left: Map<Seq<char>, nat>,
    list: Seq<(Seq<char>, Seq<char>)>,
    from: Seq<char>,
    m: int,
    n: int,
)
    requires
        0 <= m <= n,
        forall|i: int| 0 <= i < n ==> left.dom().contains((#[trigger] list[i]).1),
        forall|to: Seq<char>| #[trigger]
            left.dom().contains(to) ==> left[to] >= between(list, from, to, n),
    ensures
        ({
            let (less, freed) = release(left, list, from, m);
            &&& less.dom() == left.dom()
            &&& forall|to: Seq<char>| #[trigger]
                left.dom().contains(to) ==> less[to] == left[to] - between(list, from, to, m)
            &&& forall|to: Seq<char>| #[trigger]
                freed.contains(to) ==> left.dom().contains(to) && between(list, from, to, m) > 0
                    && left[to] == between(list, from, to, m)
            &&& forall|to: Seq<char>| #[trigger]
                left.dom().contains(to) && between(list, from, to, m) > 0 && left[to] == between(
                    list,
                    from,
                    to,
                    m,
                ) ==> freed.contains(to)
            &&& freed.no_duplicates()
        }),
    decreases m,
{
    if m > 0 {
        release_holds(left, list, from, m - 1, n);
        let (before, had) = release(left, list, from, m - 1);
        let (less, freed) = release(left, list, from, m);
        let (a, b) = list[m - 1];
        assert(left.dom().contains(list[m - 1].1));
        if a == from {
            between_at_most(list, from, b, m - 1, n);
            between_at_most(list, from, b, m, n);
            assert(before[b] == left[b] - between(list, from, b, m - 1));
            assert(before[b] > 0);
            assert(less.dom() =~= left.dom());
            if less[b] == 0 {
                assert(freed == had.push(b));
                assert(!had.contains(b)) by {
                    if had.contains(b) {
                        assert(left[b] == between(list, from, b, m - 1));
                    }
                }
                assert forall|to: Seq<char>| #[trigger] freed.contains(to) implies left.dom().contains(
                    to,
                ) && between(list, from, to, m) > 0 && left[to] == between(list, from, to, m) by {
                    let k = choose|k: int| 0 <= k < freed.len() && freed[k] == to;
                    if k < had.len() {
                        assert(had[k] == to);
                        assert(had.contains(to));
                    }
                }
                assert forall|to: Seq<char>| #[trigger]
                    left.dom().contains(to) && between(list, from, to, m) > 0 && left[to]
                        == between(list, from, to, m) implies freed.contains(to) by {
                    if to == b {
                        assert(freed[freed.len() - 1] == b);
                    } else {
                        assert(had.contains(to));
                        let k = choose|k: int| 0 <= k < had.len() && had[k] == to;
                        assert(freed[k] == to);
                    }
                }
            }
        }
    }
}

/// Whether a plugin of one name waits for another name.
pub open spec fn waits(list: Seq<Node>, name: Seq<char>, dep: Seq<char>) -> bool {
    exists|k: int|
        0 <= k < list.len() && (#[trigger] list[k]).name == name && list[k].deps.contains(dep)
}

/// Whether no two plugins share a name.
pub open spec fn distinct_nodes(list: Seq<Node>) -> bool {
    forall|i: int, j: int|
        0 <= i < j < list.len() ==> (#[trigger] list[i]).name != (#[trigger] list[j]).name
}

/// What holds while the queue is drained: `done` has left it, the edges are those from names
/// that have not, what a name waits for is counted by them, and a name is ready or done
/// exactly when no edge leads to it.
spec fn draining(
    list: Seq<Node>,
    edge_list: Seq<(Seq<char>, Seq<char>)>,
    left: Map<Seq<char>, nat>,
    ready: Seq<Seq<char>>,
    done: Seq<Seq<char>>,
) -> bool {
    &&& forall|dep: Seq<char>, name: Seq<char>|
        edge_list.contains((dep, name)) <==> #[trigger] waits(list, name, dep) && !done.contains(dep)
    &&& forall|name: Seq<char>| #[trigger]
        left.dom().contains(name) <==> node_names(list).contains(name)
    &&& forall|name: Seq<char>| #[trigger]
        left.dom().contains(name) ==> left[name] == leading(
            edge_list,
            name,
            edge_list.len() as int,
        )
    &&& (done + ready).no_duplicates()
    &&& forall|name: Seq<char>| #[trigger]
        (done + ready).contains(name) <==> node_names(list).contains(name) && leading(
            edge_list,
            name,
            edge_list.len() as int,
        ) == 0
}

/// What holds of an order: no name twice, every name after those its plugin waits for, and
/// each plugin that is left waits for one that is left.
pub open spec fn well_ordered(list: Seq<Node>, order: Seq<Seq<char>>) -> bool {
    &&& order.no_duplicates()
    &&& forall|k: int, dep: Seq<char>|
        0 <= k < order.len() && #[trigger] waits(list, order[k], dep) ==> order.subrange(
            0,
            k,
        ).contains(dep)
    &&& forall|name: Seq<char>|
        node_names(list).contains(name) && !(#[trigger] order.contains(name)) ==> exists|
            dep: Seq<char>,
        | #[trigger]
            waits(list, name, dep) && !order.contains(dep)
}

/// Whether the names of a sequence from `at` on come after those their plugins wait for.
spec fn follows(list: Seq<Node>, order: Seq<Seq<char>>, at: int) -> bool {
    forall|k: int, dep: Seq<char>|
        at <= k < order.len() && #[trigger] waits(list, order[k], dep) ==> order.subrange(
            0,
            k,
        ).contains(dep)
}

proof fn drain_holds(
    list: Seq<Node>,
    edge_list: Seq<(Seq<char>, Seq<char>)>,
    left: Map<Seq<char>, nat>,
    ready: Seq<Seq<char>>,
    done: Seq<Seq<char>>,
)
    requires
        draining(list, edge_list, left, ready, done),
        follows(list, done, 0),
    ensures
        well_ordered(list, done + drain(edge_list, left, ready)),
    decreases edge_list.len() + ready.len(),
{
    let n = edge_list.len() as int;
    if ready.len() == 0 {
        assert(done + ready =~= done);
        assert(done + drain(edge_list, left, ready) =~= done);
        assert forall|name: Seq<char>|
            node_names(list).contains(name) && !(#[trigger] done.contains(name)) implies exists|
            dep: Seq<char>,
        | #[trigger] waits(list, name, dep) && !done.contains(dep) by {
            assert(!(done + ready).contains(name));
            leading_some(edge_list, name, n);
            let i = choose|i: int| 0 <= i < n && (#[trigger] edge_list[i]).1 == name;
            let dep = edge_list[i].0;
            assert(edge_list[i] == (dep, name));
            assert(edge_list.contains((dep, name)));
            assert(waits(list, name, dep));
        }
    } else {
        let name = ready[0];
        let (less, freed) = release(left, edge_list, name, n);
        let rest = others(edge_list, name, n);
        let queue = ready.drop_first() + freed;
        let past = done.push(name);
        released_at_most(left, edge_list, name, n);
        // Nothing leads to a ready name, so what it waits for is done.
        assert((done + ready)[done.len() as int] == name);
        assert((done + ready).contains(name));
        assert forall|i: int| 0 <= i < n implies left.dom().contains((#[trigger] edge_list[i]).1) by {
            let edge = edge_list[i];
            assert(edge_list.contains((edge.0, edge.1)));
            assert(waits(list, edge.1, edge.0));
            let k = choose|k: int|
                0 <= k < list.len() && (#[trigger] list[k]).name == edge.1
                    && list[k].deps.contains(edge.0);
            assert(node_names(list)[k] == edge.1);
        }
        assert forall|to: Seq<char>| #[trigger] left.dom().contains(to) implies left[to] >= between(
            edge_list,
            name,
            to,
            n,
        ) by {
            between_at_most(edge_list, name, to, n, n);
        }
        release_holds(left, edge_list, name, n, n);
        assert forall|dep: Seq<char>, to: Seq<char>|
            rest.contains((dep, to)) <==> #[trigger] waits(list, to, dep) && !past.contains(dep) by {
            resolve::others_from(edge_list, name, n, (dep, to));
            past_contains(done, name, dep);
            let edge = (dep, to);
            assert(edge_list.contains(edge) <==> waits(list, to, dep) && !done.contains(dep));
            if edge_list.contains(edge) {
                let i = choose|i: int| 0 <= i < n && edge_list[i] == edge;
                assert(edge_list[i] == edge);
            }
            if rest.contains(edge) {
                let i = choose|i: int| 0 <= i < n && (#[trigger] edge_list[i]) == edge;
                assert(edge_list.contains(edge));
            }
        }
        assert forall|to: Seq<char>| #[trigger] less.dom().contains(to) implies less[to] == leading(
            rest,
            to,
            rest.len() as int,
        ) by {
            others_leading(edge_list, name, to, n);
            assert(left.dom().contains(to));
        }
        let now = past + queue;
        let then = done + ready;
        assert(now =~= then + freed);
        assert forall|to: Seq<char>| freed.contains(to) implies !then.contains(to) by {
            between_at_most(edge_list, name, to, n, n);
            assert(left.dom().contains(to));
        }
        assert(now.no_duplicates()) by {
            assert forall|a: int, b: int| 0 <= a < now.len() && 0 <= b < now.len() && a != b implies now[a]
                != now[b] by {
                let m = then.len() as int;
                if a < m && b < m {
                    assert(then[a] != then[b]);
                } else if a >= m && b >= m {
                    assert(freed[a - m] != freed[b - m]);
                } else if a < m {
                    assert(freed.contains(freed[b - m]));
                    assert(then.contains(then[a]));
                } else {
                    assert(freed.contains(freed[a - m]));
                    assert(then.contains(then[b]));
                }
            }
        }
        assert forall|to: Seq<char>| #[trigger] now.contains(to) <==> node_names(list).contains(to)
            && leading(rest, to, rest.len() as int) == 0 by {
            others_leading(edge_list, name, to, n);
            between_at_most(edge_list, name, to, n, n);
            if now.contains(to) {
                let k = choose|k: int| 0 <= k < now.len() && now[k] == to;
                if k < then.len() {
                    assert(then[k] == to);
                    assert(then.contains(to));
                } else {
                    assert(freed[k - then.len()] == to);
                    assert(freed.contains(to));
                    assert(left.dom().contains(to));
                }
            }
            if node_names(list).contains(to) && leading(rest, to, rest.len() as int) == 0 {
                assert(left.dom().contains(to));
                if leading(edge_list, to, n) == 0 {
                    assert(then.contains(to));
                    let k = choose|k: int| 0 <= k < then.len() && then[k] == to;
                    assert(now[k] == to);
                } else {
                    assert(freed.contains(to));
                    let k = choose|k: int| 0 <= k < freed.len() && freed[k] == to;
                    assert(now[then.len() + k] == to);
                }
            }
        }
        assert(draining(list, rest, less, queue, past));
        assert(follows(list, past, 0)) by {
            assert forall|k: int, dep: Seq<char>|
                0 <= k < past.len() && #[trigger] waits(list, past[k], dep) implies past.subrange(
                0,
                k,
            ).contains(dep) by {
                if k < done.len() {
                    assert(past[k] == done[k]);
                    assert(waits(list, done[k], dep));
                    assert(past.subrange(0, k) =~= done.subrange(0, k));
                } else {
                    assert(past.subrange(0, k) =~= done);
                    assert(waits(list, name, dep));
                    leading_some(edge_list, name, n);
                    if !done.contains(dep) {
                        assert(edge_list.contains((dep, name)));
                        let i = choose|i: int| 0 <= i < n && edge_list[i] == (dep, name);
                        assert(edge_list[i].1 == name);
                    }
                }
            }
        }
        drain_holds(list, rest, less, queue, past);
        assert(past + drain(rest, less, queue) =~= done + drain(edge_list, left, ready));
    }
}

proof fn past_contains(done: Seq<Seq<char>>, name: Seq<char>, other: Seq<char>)
    ensures
        done.push(name).contains(other) <==> done.contains(other) || other == name,
{
    let past = done.push(name);
    if done.contains(other) {
        let k = choose|k: int| 0 <= k < done.len() && done[k] == other;
        assert(past[k] == other);
    }
    if other == name {
        assert(past[done.len() as int] == other);
    }
    if past.contains(other) {
        let k = choose|k: int| 0 <= k < past.len() && past[k] == other;
        if k < done.len() {
            assert(done[k] == other);
        }
    }
}

proof fn counts_hold(list: Seq<Node>, name: Seq<char>)
    requires
        distinct_nodes(list),
    ensures
        counts(list).dom().contains(name) <==> node_names(list).contains(name),
        counts(list).dom().contains(name) ==> counts(list)[name] == leading(
            edges(list),
            name,
            edges(list).len() as int,
        ),
    decreases list.len(),
{
    if list.len() > 0 {
        let less = list.drop_last();
        let node = list.last();
        let more = node.deps.map_values(|d: Seq<char>| (d, node.name));
        assert(distinct_nodes(less));
        counts_hold(less, name);
        assert(edges(list) == edges(less) + more);
        assert(node_names(list) =~= node_names(less).push(node.name));
        past_contains(node_names(less), node.name, name);
        leading_concat(edges(less), more, name, more.len() as int);
        if name == node.name {
            leading_all(more, name, more.len() as int);
            // No earlier plugin has this name, so no earlier edge leads to it.
            if leading(edges(less), name, edges(less).len() as int) > 0 {
                leading_some(edges(less), name, edges(less).len() as int);
                let i = choose|i: int|
                    0 <= i < edges(less).len() && (#[trigger] edges(less)[i]).1 == name;
                let edge = edges(less)[i];
                assert(edges(less).contains(edge));
                resolve::edge_of(less, edge);
                let k = choose|k: int|
                    0 <= k < less.len() && (#[trigger] less[k]).name == edge.1
                        && less[k].deps.contains(edge.0);
                assert(list[k].name != list[list.len() - 1].name);
            }
        } else {
            leading_none(more, name, more.len() as int);
        }
    } else {
        assert(node_names(list).len() == 0);
        assert(edges(list).len() == 0);
    }
}

proof fn leading_concat(
    a: Seq<(Seq<char>, Seq<char>)>,
    b: Seq<(Seq<char>, Seq<char>)>,
    to: Seq<char>,
    n: int,
)
    requires
        0 <= n <= b.len(),
    ensures
        leading(a + b, to, a.len() + n) == leading(a, to, a.len() as int) + leading(b, to, n),
    decreases n,
{
    if n > 0 {
        leading_concat(a, b, to, n - 1);
        assert((a + b)[a.len() + n - 1] == b[n - 1]);
    } else {
        leading_prefix(a, b, to, a.len() as int);
    }
}

proof fn leading_prefix(
    a: Seq<(Seq<char>, Seq<char>)>,
    b: Seq<(Seq<char>, Seq<char>)>,
    to: Seq<char>,
    n: int,
)
    requires
        0 <= n <= a.len(),
    ensures
        leading(a + b, to, n) == leading(a, to, n),
    decreases n,
{
    if n > 0 {
        leading_prefix(a, b, to, n - 1);
        assert((a + b)[n - 1] == a[n - 1]);
    }
}

proof fn leading_all(list: Seq<(Seq<char>, Seq<char>)>, to: Seq<char>, n: int)
    requires
        0 <= n <= list.len(),
        forall|i: int| 0 <= i < list.len() ==> (#[trigger] list[i]).1 == to,
    ensures
        leading(list, to, n) == n,
    decreases n,
{
    if n > 0 {
        leading_all(list, to, n - 1);
    }
}

proof fn leading_none(list: Seq<(Seq<char>, Seq<char>)>, to: Seq<char>, n: int)
    requires
        0 <= n <= list.len(),
        forall|i: int| 0 <= i < list.len() ==> (#[trigger] list[i]).1 != to,
    ensures
        leading(list, to, n) == 0,
    decreases n,
{
    if n > 0 {
        leading_none(list, to, n - 1);
    }
}

proof fn idle_distinct(list: Seq<Seq<char>>, left: Map<Seq<char>, nat>, n: int)
    requires
        list.no_duplicates(),
        0 <= n <= list.len(),
    ensures
        idle_upto(list, left, n).no_duplicates(),
    decreases n,
{
    if n > 0 {
        idle_distinct(list, left, n - 1);
        let less = idle_upto(list, left, n - 1);
        if less.contains(list[n - 1]) {
            resolve::idle_from(list, left, n - 1, list[n - 1]);
            let i = choose|i: int| 0 <= i < n - 1 && (#[trigger] list[i]) == list[n - 1];
            assert(list[i] != list[n - 1]);
        }
    }
}

/// Where no two plugins share a name, every plugin follows those it waits for, no plugin
/// comes twice, and each plugin that is left out of the order waits for another that is.
pub proof fn order_is_sound(list: Seq<Node>)
    requires
        distinct_nodes(list),
    ensures
        well_ordered(list, node_order(list)),
{
    broadcast use vstd::seq_lib::group_to_multiset_ensures;
    let all = sorted(node_names(list));
    let left = counts(list);
    let ready = idle_upto(all, left, all.len() as int);
    let none = Seq::<Seq<char>>::empty();
    let edge_list = edges(list);
    let m = edge_list.len() as int;
    sorted_names(node_names(list));
    assert(node_names(list).no_duplicates()) by {
        assert forall|a: int, b: int|
            0 <= a < node_names(list).len() && 0 <= b < node_names(list).len() && a
                != b implies node_names(list)[a] != node_names(list)[b] by {
            if a < b {
                assert(list[a].name != list[b].name);
            } else {
                assert(list[b].name != list[a].name);
            }
        }
    }
    node_names(list).lemma_multiset_has_no_duplicates();
    all.lemma_multiset_has_no_duplicates_conv();
    idle_distinct(all, left, all.len() as int);
    assert(none + ready =~= ready);
    assert forall|dep: Seq<char>, name: Seq<char>|
        edge_list.contains((dep, name)) <==> #[trigger] waits(list, name, dep) && !none.contains(
            dep,
        ) by {
        resolve::edge_of(list, (dep, name));
    }
    assert forall|name: Seq<char>| #[trigger] left.dom().contains(name) <==> node_names(
        list,
    ).contains(name) by {
        counts_hold(list, name);
    }
    assert forall|name: Seq<char>| #[trigger] left.dom().contains(name) implies left[name]
        == leading(edge_list, name, m) by {
        counts_hold(list, name);
    }
    assert forall|name: Seq<char>| #[trigger] (none + ready).contains(name) <==> node_names(
        list,
    ).contains(name) && leading(edge_list, name, m) == 0 by {
        resolve::idle_from(all, left, all.len() as int, name);
        counts_hold(list, name);
        if all.contains(name) {
            let i = choose|i: int| 0 <= i < all.len() && all[i] == name;
        }
        if exists|i: int| 0 <= i < all.len() && (#[trigger] all[i]) == name {
            assert(all.contains(name));
        }
    }
    drain_holds(list, edge_list, left, ready, none);
    assert(none + drain(edge_list, left, ready) =~= node_order(list));
}

/// Whether no two manifests share a name.
pub open spec fn distinct_names(ms: Seq<Manifest>) -> bool {
    forall|i: int, j: int|
        0 <= i < j < ms.len() ==> (#[trigger] ms[i]).name@ != (#[trigger] ms[j]).name@
}

/// Whether a manifest declares a dependency of a name.
pub open spec fn declares(manifest: Manifest, dep: Seq<char>) -> bool {
    manifest.dependencies.keys().contains(dep)
}

proof fn wired_holds(ms: Seq<Manifest>, keys: Seq<Seq<char>>, n: int, dep: Seq<char>)
    requires
        0 <= n <= keys.len(),
    ensures
        wired_upto(ms, keys, n).contains(dep) <==> awaited(ms, dep) && exists|i: int|
            0 <= i < n && (#[trigger] keys[i]) == dep,
    decreases n,
{
    if n > 0 {
        wired_holds(ms, keys, n - 1, dep);
        let less = wired_upto(ms, keys, n - 1);
        if awaited(ms, keys[n - 1]) {
            past_contains(less, keys[n - 1], dep);
        }
        if exists|i: int| 0 <= i < n && (#[trigger] keys[i]) == dep {
            let i = choose|i: int| 0 <= i < n && (#[trigger] keys[i]) == dep;
            if i < n - 1 {
                assert(keys[i] == dep);
            }
        }
    } else {
        assert(wired_upto(ms, keys, n).len() == 0);
    }
}

proof fn nodes_distinct(ms: Seq<Manifest>)
    requires
        distinct_names(ms),
    ensures
        distinct_nodes(nodes(ms)),
{
    let open = pending(ms);
    resolve::pending_holds(ms, ms.len() as int);
    assert forall|i: int, j: int| 0 <= i < j < nodes(ms).len() implies (#[trigger] nodes(ms)[i]).name
        != (#[trigger] nodes(ms)[j]).name by {
        assert(open[i] < open[j]);
        assert(ms[open[i]].name@ != ms[open[j]].name@);
    }
}

/// What a plugin of the order waits for is what its manifest declares and the root holds.
proof fn waits_are_declared(ms: Seq<Manifest>, name: Seq<char>, dep: Seq<char>)
    requires
        distinct_names(ms),
    ensures
        waits(nodes(ms), name, dep) <==> place(ms, name) is Some && declares(
            ms[place(ms, name)->0],
            dep,
        ) && awaited(ms, dep),
{
    let list = nodes(ms);
    let open = pending(ms);
    resolve::pending_holds(ms, ms.len() as int);
    place_holds(ms, name, ms.len() as int);
    if waits(list, name, dep) {
        let k = choose|k: int|
            0 <= k < list.len() && (#[trigger] list[k]).name == name && list[k].deps.contains(dep);
        let i = open[k];
        assert(ms[i].name@ == name);
        assert(unmet(ms, ms[i]) is None);
        let at = place(ms, name)->0;
        if at < i {
            assert(ms[at].name@ != ms[i].name@);
        } else if i < at {
            assert(ms[i].name@ != ms[at].name@);
        }
        let keys = ms[i].dependencies.keys();
        wired_holds(ms, keys, keys.len() as int, dep);
        let x = choose|x: int| 0 <= x < keys.len() && (#[trigger] keys[x]) == dep;
        assert(keys.contains(dep));
    }
    if place(ms, name) is Some && declares(ms[place(ms, name)->0], dep) && awaited(ms, dep) {
        let at = place(ms, name)->0;
        assert(open.contains(at));
        let k = choose|k: int| 0 <= k < open.len() && open[k] == at;
        let keys = ms[at].dependencies.keys();
        wired_holds(ms, keys, keys.len() as int, dep);
        let x = choose|x: int| 0 <= x < keys.len() && keys[x] == dep;
        assert(keys[x] == dep);
        assert(list[k].name == name);
        assert(list[k].deps.contains(dep));
    }
}

proof fn order_has_no_repeats(ms: Seq<Manifest>)
    requires
        distinct_names(ms),
    ensures
        load_order(ms) == node_order(nodes(ms)),
{
    nodes_distinct(ms);
    order_is_sound(nodes(ms));
    let order = node_order(nodes(ms));
    firsts_all(order, order.len() as int);
    assert(order.subrange(0, order.len() as int) =~= order);
}

proof fn firsts_all(list: Seq<Seq<char>>, n: int)
    requires
        list.no_duplicates(),
        0 <= n <= list.len(),
    ensures
        firsts(list, n) == list.subrange(0, n),
    decreases n,
{
    if n > 0 {
        firsts_all(list, n - 1);
        let less = list.subrange(0, n - 1);
        if less.contains(list[n - 1]) {
            let k = choose|k: int| 0 <= k < less.len() && less[k] == list[n - 1];
            assert(list[k] != list[n - 1]);
        }
        assert(list.subrange(0, n) =~= less.push(list[n - 1]));
    } else {
        assert(firsts(list, n) =~= list.subrange(0, n));
    }
}

/// Every plugin is loaded after each dependency it declares that the root holds and that was
/// not left out.
pub proof fn dependencies_load_first(ms: Seq<Manifest>, k: int, dep: Seq<char>)
    requires
        distinct_names(ms),
        0 <= k < load_order(ms).len(),
        declares(ms[place(ms, load_order(ms)[k])->0], dep),
        awaited(ms, dep),
    ensures
        exists|j: int| 0 <= j < k && #[trigger] load_order(ms)[j] == dep,
{
    let list = nodes(ms);
    let order = node_order(list);
    order_has_no_repeats(ms);
    nodes_distinct(ms);
    order_is_sound(list);
    let name = order[k];
    assert(order.contains(name));
    resolve::ordered_is_node(list, name);
    resolve::node_has_place(ms, name);
    waits_are_declared(ms, name, dep);
    assert(waits(list, order[k], dep));
    assert(order.subrange(0, k).contains(dep));
    let j = choose|j: int| 0 <= j < k && order.subrange(0, k)[j] == dep;
    assert(load_order(ms)[j] == dep);
}

/// No plugin is loaded twice.
pub proof fn nothing_loads_twice(ms: Seq<Manifest>)
    ensures
        load_order(ms).no_duplicates(),
{
    let order = node_order(nodes(ms));
    firsts_hold(order, order.len() as int);
}

/// A plugin whose requirements the root cannot meet is a failure; any other is either loaded
/// or caught in a cycle, and never both.
pub proof fn every_plugin_is_accounted_for(ms: Seq<Manifest>, i: int)
    requires
        distinct_names(ms),
        0 <= i < ms.len(),
    ensures
        unmet(ms, ms[i]) is Some ==> !load_order(ms).contains(ms[i].name@) && !cycle(ms).contains(
            ms[i].name@,
        ),
        unmet(ms, ms[i]) is None ==> (load_order(ms).contains(ms[i].name@) <==> !cycle(
            ms,
        ).contains(ms[i].name@)),
        unmet(ms, ms[i]) is None ==> place(ms, ms[i].name@) == Some(i),
{
    let name = ms[i].name@;
    let list = nodes(ms);
    order_has_no_repeats(ms);
    cycle_holds(list, name);
    resolve::node_has_place(ms, name);
    place_holds(ms, name, ms.len() as int);
    if place(ms, name) is Some {
        let at = place(ms, name)->0;
        if at < i {
            assert(ms[at].name@ != ms[i].name@);
        } else if i < at {
            assert(ms[i].name@ != ms[at].name@);
        }
    }
    if node_order(list).contains(name) {
        resolve::ordered_is_node(list, name);
    }
}

/// A plugin caught in a cycle waits for another that is caught: nothing is refused that
/// could have been ordered.
pub proof fn caught_waits_for_caught(ms: Seq<Manifest>, name: Seq<char>)
    requires
        distinct_names(ms),
        cycle(ms).contains(name),
    ensures
        exists|dep: Seq<char>|
            declares(ms[place(ms, name)->0], dep) && awaited(ms, dep) && #[trigger] cycle(
                ms,
            ).contains(dep),
{
    let list = nodes(ms);
    let order = node_order(list);
    nodes_distinct(ms);
    order_is_sound(list);
    cycle_holds(list, name);
    resolve::node_has_place(ms, name);
    assert(!order.contains(name));
    let dep = choose|dep: Seq<char>| #[trigger] waits(list, name, dep) && !order.contains(dep);
    waits_are_declared(ms, name, dep);
    awaited_is_node(ms, dep);
    cycle_holds(list, dep);
    assert(cycle(ms).contains(dep));
}

proof fn awaited_is_node(ms: Seq<Manifest>, dep: Seq<char>)
    requires
        awaited(ms, dep),
    ensures
        node_names(nodes(ms)).contains(dep),
{
    version_named_holds(ms, dep);
    let i = choose|i: int| 0 <= i < ms.len() && (#[trigger] ms[i]).name@ == dep;
    assert(unmet(ms, ms[i]) is None) by {
        if unmet(ms, ms[i]) is Some {
            assert(ms[i].name@ == dep);
            assert(dropped(ms, dep));
        }
    }
    place_holds(ms, dep, ms.len() as int);
    resolve::node_has_place(ms, dep);
}

proof fn version_named_holds(ms: Seq<Manifest>, name: Seq<char>)
    ensures
        version_named(ms, name) is Some ==> exists|i: int|
            0 <= i < ms.len() && (#[trigger] ms[i]).name@ == name,
    decreases ms.len(),
{
    if ms.len() > 0 {
        if ms.last().name@ == name {
            assert(ms[ms.len() - 1].name@ == name);
        } else {
            let less = ms.drop_last();
            version_named_holds(less, name);
            if version_named(ms, name) is Some {
                let i = choose|i: int| 0 <= i < less.len() && (#[trigger] less[i]).name@ == name;
                assert(ms[i].name@ == name);
            }
        }
    }
}

/// Whether a name is among those that are loaded.
pub open spec fn is_ordered(ms: Seq<Manifest>, name: Seq<char>) -> bool {
    exists|k: int| 0 <= k < load_order(ms).len() && #[trigger] load_order(ms)[k] == name
}

proof fn ordered_is_awaited(ms: Seq<Manifest>, name: Seq<char>)
    requires
        distinct_names(ms),
        is_ordered(ms, name),
    ensures
        awaited(ms, name),
        place(ms, name) is Some,
{
    let list = nodes(ms);
    order_has_no_repeats(ms);
    let k = choose|k: int| 0 <= k < load_order(ms).len() && #[trigger] load_order(ms)[k] == name;
    assert(node_order(list).contains(name));
    resolve::ordered_is_node(list, name);
    resolve::node_has_place(ms, name);
    place_holds(ms, name, ms.len() as int);
    let at = place(ms, name)->0;
    version_is_there(ms, name, at);
    if dropped(ms, name) {
        let i = choose|i: int|
            0 <= i < ms.len() && #[trigger] ms[i].name@ == name && unmet(ms, ms[i]) is Some;
        if i < at {
            assert(ms[i].name@ != ms[at].name@);
        } else if at < i {
            assert(ms[at].name@ != ms[i].name@);
        }
    }
}

proof fn version_is_there(ms: Seq<Manifest>, name: Seq<char>, i: int)
    requires
        0 <= i < ms.len(),
        ms[i].name@ == name,
    ensures
        version_named(ms, name) is Some,
    decreases ms.len(),
{
    if ms.last().name@ != name {
        assert(i < ms.len() - 1);
        version_is_there(ms.drop_last(), name, i);
    }
}

/// Of two plugins that are loaded, one that declares the other as a dependency, optional or not,
/// comes after it.
pub proof fn declared_comes_before(ms: Seq<Manifest>, k: int, d: int)
    requires
        distinct_names(ms),
        0 <= k < load_order(ms).len(),
        place(ms, load_order(ms)[k]) is Some,
        0 <= d < ms[place(ms, load_order(ms)[k])->0].dependencies@.len(),
        is_ordered(ms, ms[place(ms, load_order(ms)[k])->0].dependencies@[d].0@),
    ensures
        exists|j: int|
            0 <= j < k && #[trigger] load_order(ms)[j] == ms[place(
                ms,
                load_order(ms)[k],
            )->0].dependencies@[d].0@,
{
    let manifest = ms[place(ms, load_order(ms)[k])->0];
    let dep = manifest.dependencies@[d].0@;
    assert(manifest.dependencies.keys()[d] == dep);
    assert(declares(manifest, dep));
    ordered_is_awaited(ms, dep);
    dependencies_load_first(ms, k, dep);
}

/// A plugin that could be wired and is not loaded waits, for ever, for another: one it declares
/// that could be wired too and is not loaded either. So nothing is refused that could have been
/// loaded.
pub proof fn only_cycles_are_refused(ms: Seq<Manifest>, i: int)
    requires
        distinct_names(ms),
        0 <= i < ms.len(),
        unmet(ms, ms[i]) is None,
        !is_ordered(ms, ms[i].name@),
    ensures
        exists|d: int, j: int|
            {
                &&& 0 <= d < ms[i].dependencies@.len()
                &&& 0 <= j < ms.len()
                &&& (#[trigger] ms[i].dependencies@[d]).0@ == (#[trigger] ms[j]).name@
                &&& unmet(ms, ms[j]) is None
                &&& !is_ordered(ms, ms[j].name@)
            },
{
    let name = ms[i].name@;
    every_plugin_is_accounted_for(ms, i);
    assert(!load_order(ms).contains(name)) by {
        if load_order(ms).contains(name) {
            let k = choose|k: int| 0 <= k < load_order(ms).len() && load_order(ms)[k] == name;
            assert(load_order(ms)[k] == name);
        }
    }
    caught_waits_for_caught(ms, name);
    let dep = choose|dep: Seq<char>|
        declares(ms[place(ms, name)->0], dep) && awaited(ms, dep) && #[trigger] cycle(
            ms,
        ).contains(dep);
    let keys = ms[i].dependencies.keys();
    let d = choose|d: int| 0 <= d < keys.len() && keys[d] == dep;
    assert(ms[i].dependencies@[d].0@ == dep);
    version_named_holds(ms, dep);
    let j = choose|j: int| 0 <= j < ms.len() && (#[trigger] ms[j]).name@ == dep;
    assert(unmet(ms, ms[j]) is None);
    every_plugin_is_accounted_for(ms, j);
    if is_ordered(ms, dep) {
        let k = choose|k: int| 0 <= k < load_order(ms).len() && #[trigger] load_order(ms)[k] == dep;
        assert(load_order(ms).contains(dep));
    }
}

/// Every plugin that could be wired and is not loaded is reported as caught in a cycle, and the
/// cycle that is reported names it and only such plugins.
pub proof fn caught_plugins_are_reported(ms: Seq<Manifest>, i: int)
    requires
        distinct_names(ms),
        0 <= i < ms.len(),
        unmet(ms, ms[i]) is None,
        !is_ordered(ms, ms[i].name@),
    ensures
        exists|f: int|
            {
                &&& 0 <= f < order_failures(ms).len()
                &&& (#[trigger] order_failures(ms)[f]).name == ms[i].name@
                &&& order_failures(ms)[f].dir == ms[i].dir@
                &&& order_failures(ms)[f].reason matches Why::DependencyCycle(names)
                &&& names.contains(ms[i].name@)
                &&& forall|n: int|
                    0 <= n < names.len() ==> !is_ordered(ms, #[trigger] names[n])
            },
{
    let name = ms[i].name@;
    every_plugin_is_accounted_for(ms, i);
    assert(!load_order(ms).contains(name)) by {
        if load_order(ms).contains(name) {
            let k = choose|k: int| 0 <= k < load_order(ms).len() && load_order(ms)[k] == name;
            assert(load_order(ms)[k] == name);
        }
    }
    let all = cycle(ms);
    let each = firsts(all, all.len() as int);
    firsts_hold(all, all.len() as int);
    let c = choose|c: int| 0 <= c < all.len() && all[c] == name;
    assert(all[c] == name);
    assert(each.contains(name));
    let k = choose|k: int| 0 <= k < each.len() && each[k] == name;
    let early = resolve::unmet_upto(ms, ms.len() as int);
    let f = early.len() + k;
    assert(order_failures(ms)[f] == resolve::cycle_failures(ms)[k]);
    order_has_no_repeats(ms);
    assert forall|n: int| 0 <= n < all.len() implies !is_ordered(ms, #[trigger] all[n]) by {
        assert(all.contains(all[n]));
        cycle_holds(nodes(ms), all[n]);
        if is_ordered(ms, all[n]) {
            let q = choose|q: int|
                0 <= q < load_order(ms).len() && #[trigger] load_order(ms)[q] == all[n];
            assert(node_order(nodes(ms)).contains(all[n]));
        }
    }
}

proof fn drain_begins(
    list: Seq<(Seq<char>, Seq<char>)>,
    left: Map<Seq<char>, nat>,
    ready: Seq<Seq<char>>,
)
    ensures
        drain(list, left, ready).len() >= ready.len(),
        drain(list, left, ready).subrange(0, ready.len() as int) == ready,
    decreases list.len() + ready.len(),
{
    if ready.len() > 0 {
        let name = ready[0];
        let n = list.len() as int;
        let (less, freed) = resolve::release(left, list, name, n);
        let more = ready.drop_first() + freed;
        resolve::released_at_most(left, list, name, n);
        drain_begins(others(list, name, n), less, more);
        let rest = drain(others(list, name, n), less, more);
        let whole = drain(list, left, ready);
        assert(whole == seq![name] + rest);
        assert forall|i: int| 0 <= i < ready.len() implies whole[i] == ready[i] by {
            if i > 0 {
                assert(whole[i] == rest[i - 1]);
                assert(rest.subrange(0, more.len() as int)[i - 1] == more[i - 1]);
            }
        }
        assert(whole.subrange(0, ready.len() as int) =~= ready);
    } else {
        assert(drain(list, left, ready).subrange(0, 0) =~= ready);
    }
}

/// Whether names stand in their order.
spec fn ascending(list: Seq<Seq<char>>) -> bool {
    forall|i: int, j: int|
        0 <= i < j < list.len() ==> !crate::names::before(#[trigger] list[j], #[trigger] list[i])
}

proof fn put_keeps_order(list: Seq<Seq<char>>, name: Seq<char>)
    requires
        ascending(list),
    ensures
        ascending(resolve::put_sorted(list, name)),
        resolve::put_sorted(list, name).len() == list.len() + 1,
        forall|i: int|
            0 <= i < list.len() + 1 ==> #[trigger] resolve::put_sorted(list, name)[i] == name
                || list.contains(resolve::put_sorted(list, name)[i]),
    decreases list.len(),
{
    let out = resolve::put_sorted(list, name);
    if list.len() > 0 && crate::names::before(name, list.last()) {
        let less = list.drop_last();
        put_keeps_order(less, name);
        let part = resolve::put_sorted(less, name);
        assert forall|i: int| 0 <= i < out.len() implies #[trigger] out[i] == name || list.contains(
            out[i],
        ) by {
            if i < part.len() {
                assert(out[i] == part[i]);
                if part[i] != name {
                    let q = choose|q: int| 0 <= q < less.len() && less[q] == part[i];
                    assert(list[q] == out[i]);
                }
            } else {
                assert(out[i] == list[list.len() - 1]);
            }
        }
        assert forall|i: int, j: int| 0 <= i < j < out.len() implies !crate::names::before(
            #[trigger] out[j],
            #[trigger] out[i],
        ) by {
            if j < part.len() {
                assert(!crate::names::before(part[j], part[i]));
            } else if part[i] == name {
                crate::names::before_asymmetric(name, list.last());
            } else {
                let q = choose|q: int| 0 <= q < less.len() && less[q] == part[i];
                assert(!crate::names::before(list[list.len() - 1], list[q]));
            }
        }
    } else {
        assert forall|i: int| 0 <= i < out.len() implies #[trigger] out[i] == name || list.contains(
            out[i],
        ) by {
            if i < list.len() {
                assert(list[i] == out[i]);
            }
        }
        assert forall|i: int, j: int| 0 <= i < j < out.len() implies !crate::names::before(
            #[trigger] out[j],
            #[trigger] out[i],
        ) by {
            if j < list.len() {
                assert(!crate::names::before(list[j], list[i]));
            } else if crate::names::before(name, list[i]) {
                let last = list.last();
                if i < list.len() - 1 {
                    assert(!crate::names::before(list[list.len() - 1], list[i]));
                    crate::names::before_total(list[i], last);
                    if list[i] != last {
                        crate::names::before_transitive(name, list[i], last);
                    }
                }
            }
        }
    }
}

proof fn sorting_orders(list: Seq<Seq<char>>)
    ensures
        ascending(sorted(list)),
    decreases list.len(),
{
    if list.len() > 0 {
        sorting_orders(list.drop_last());
        put_keeps_order(sorted(list.drop_last()), list.last());
    }
}

proof fn idle_keeps_order(list: Seq<Seq<char>>, left: Map<Seq<char>, nat>, n: int)
    requires
        0 <= n <= list.len(),
        ascending(list),
    ensures
        ascending(idle_upto(list, left, n)),
        forall|i: int|
            0 <= i < idle_upto(list, left, n).len() ==> exists|j: int|
                0 <= j < n && list[j] == #[trigger] idle_upto(list, left, n)[i],
        forall|j: int|
            0 <= j < n && resolve::left_of(left, #[trigger] list[j]) == 0 ==> idle_upto(
                list,
                left,
                n,
            ).contains(list[j]),
    decreases n,
{
    if n > 0 {
        idle_keeps_order(list, left, n - 1);
        let less = idle_upto(list, left, n - 1);
        let here = idle_upto(list, left, n);
        assert forall|i: int| 0 <= i < here.len() implies exists|j: int|
            0 <= j < n && list[j] == #[trigger] here[i] by {
            if i < less.len() {
                assert(here[i] == less[i]);
                let j = choose|j: int| 0 <= j < n - 1 && list[j] == less[i];
                assert(list[j] == here[i]);
            } else {
                assert(list[n - 1] == here[i]);
            }
        }
        assert forall|i: int, j: int| 0 <= i < j < here.len() implies !crate::names::before(
            #[trigger] here[j],
            #[trigger] here[i],
        ) by {
            assert(here[i] == less[i]);
            let p = choose|p: int| 0 <= p < n - 1 && list[p] == less[i];
            if j < less.len() {
                assert(!crate::names::before(less[j], less[i]));
            } else {
                assert(!crate::names::before(list[n - 1], list[p]));
            }
        }
        assert forall|j: int| 0 <= j < n && resolve::left_of(left, #[trigger] list[j]) == 0 implies here.contains(
            list[j],
        ) by {
            if j < n - 1 {
                let q = choose|q: int| 0 <= q < less.len() && less[q] == list[j];
                assert(here[q] == list[j]);
            } else {
                assert(here[here.len() - 1] == list[j]);
            }
        }
    }
}

proof fn idle_stands_early(ms: Seq<Manifest>, i: int) -> (p: int)
    requires
        distinct_names(ms),
        0 <= i < ms.len(),
        ms[i].dependencies@.len() == 0,
    ensures
        ({
            let list = nodes(ms);
            let all = sorted(node_names(list));
            let ready = idle_upto(all, counts(list), all.len() as int);
            &&& 0 <= p < ready.len() <= load_order(ms).len()
            &&& ready[p] == ms[i].name@
            &&& load_order(ms).subrange(0, ready.len() as int) == ready
            &&& ascending(ready)
        }),
{
    let list = nodes(ms);
    let all = sorted(node_names(list));
    let left = counts(list);
    let ready = idle_upto(all, left, all.len() as int);
    let name = ms[i].name@;
    nodes_distinct(ms);
    order_has_no_repeats(ms);
    drain_begins(edges(list), left, ready);
    sorting_orders(node_names(list));
    idle_keeps_order(all, left, all.len() as int);
    assert(unmet(ms, ms[i]) is None);
    every_plugin_is_accounted_for(ms, i);
    resolve::node_has_place(ms, name);
    sorted_names(node_names(list));
    assert(all.contains(name));
    let j = choose|j: int| 0 <= j < all.len() && all[j] == name;
    counts_hold(list, name);
    if leading(edges(list), name, edges(list).len() as int) > 0 {
        leading_some(edges(list), name, edges(list).len() as int);
        let e = choose|e: int|
            0 <= e < edges(list).len() && (#[trigger] edges(list)[e]).1 == name;
        let edge = edges(list)[e];
        assert(edges(list).contains(edge));
        resolve::edge_of(list, edge);
        assert(waits(list, name, edge.0));
        waits_are_declared(ms, name, edge.0);
        assert(ms[i].dependencies.keys().len() == 0);
    }
    assert(resolve::left_of(left, all[j]) == 0);
    choose|p: int| 0 <= p < ready.len() && ready[p] == name
}

/// Plugins that declare no dependency are loaded in the order of their names.
pub proof fn independent_plugins_load_by_name(ms: Seq<Manifest>, i: int, j: int)
    requires
        distinct_names(ms),
        0 <= i < ms.len(),
        0 <= j < ms.len(),
        ms[i].dependencies@.len() == 0,
        ms[j].dependencies@.len() == 0,
        crate::names::before(ms[i].name@, ms[j].name@),
    ensures
        exists|a: int, b: int|
            0 <= a < b < load_order(ms).len() && #[trigger] load_order(ms)[a] == ms[i].name@
                && #[trigger] load_order(ms)[b] == ms[j].name@,
{
    let list = nodes(ms);
    let all = sorted(node_names(list));
    let ready = idle_upto(all, counts(list), all.len() as int);
    let p = idle_stands_early(ms, i);
    let q = idle_stands_early(ms, j);
    crate::names::before_asymmetric(ms[i].name@, ms[j].name@);
    if q < p {
        assert(!crate::names::before(ready[p], ready[q]));
    }
    assert(p < q);
    assert(load_order(ms).subrange(0, ready.len() as int)[p] == load_order(ms)[p]);
    assert(load_order(ms).subrange(0, ready.len() as int)[q] == load_order(ms)[q]);
}

} // verus!
