//! Which plugins have to share a state.
//!
//! Two plugins must share one exactly when a chain of dependencies connects them, because
//! that chain is what carries values between them. So the grouping is the connected
//! components of the dependency graph, read as undirected: a dependency binds both ends.

use crate::manifest::Manifest;
use crate::names::NameMap;
use vstd::prelude::*;

verus! {

/// The place of the last manifest with a name.
pub open spec fn last_place(ms: Seq<Manifest>, name: Seq<char>) -> Option<int>
    decreases ms.len(),
{
    if ms.len() == 0 {
        None
    } else if ms.last().name@ == name {
        Some(ms.len() - 1)
    } else {
        last_place(ms.drop_last(), name)
    }
}

/// Whether the manifest at one place declares the plugin at another as a dependency.
pub open spec fn depends(ms: Seq<Manifest>, a: int, b: int) -> bool {
    exists|k: int|
        0 <= k < ms[a].dependencies@.len() && last_place(
            ms,
            (#[trigger] ms[a].dependencies@[k]).0@,
        ) == Some(b)
}

/// Whether a dependency binds two places, in either direction.
pub open spec fn adjacent(ms: Seq<Manifest>, a: int, b: int) -> bool {
    &&& 0 <= a < ms.len()
    &&& 0 <= b < ms.len()
    &&& depends(ms, a, b) || depends(ms, b, a)
}

/// Whether a sequence of places is a chain of dependencies from one to another.
pub open spec fn chain(ms: Seq<Manifest>, p: Seq<int>, a: int, b: int) -> bool {
    &&& p.len() > 0
    &&& p[0] == a
    &&& p[p.len() - 1] == b
    &&& 0 <= a < ms.len()
    &&& forall|i: int| 0 <= i < p.len() - 1 ==> adjacent(ms, #[trigger] p[i], p[i + 1])
}

/// Whether a chain of dependencies connects two places.
pub open spec fn connected(ms: Seq<Manifest>, a: int, b: int) -> bool {
    exists|p: Seq<int>| chain(ms, p, a, b)
}

pub proof fn connected_reflexive(ms: Seq<Manifest>, a: int)
    requires
        0 <= a < ms.len(),
    ensures
        connected(ms, a, a),
{
    assert(chain(ms, seq![a], a, a));
}

pub proof fn connected_symmetric(ms: Seq<Manifest>, a: int, b: int)
    requires
        connected(ms, a, b),
    ensures
        connected(ms, b, a),
{
    let p = choose|p: Seq<int>| chain(ms, p, a, b);
    let q = Seq::new(p.len(), |i: int| p[p.len() - 1 - i]);
    assert forall|i: int| 0 <= i < q.len() - 1 implies adjacent(ms, #[trigger] q[i], q[i + 1]) by {
        let j = p.len() - 2 - i;
        assert(adjacent(ms, p[j], p[j + 1]));
    }
    if p.len() > 1 {
        assert(adjacent(ms, p[p.len() - 2], p[p.len() - 2 + 1]));
    }
    assert(chain(ms, q, b, a));
}

pub proof fn connected_transitive(ms: Seq<Manifest>, a: int, b: int, c: int)
    requires
        connected(ms, a, b),
        connected(ms, b, c),
    ensures
        connected(ms, a, c),
{
    let p = choose|p: Seq<int>| chain(ms, p, a, b);
    let q = choose|q: Seq<int>| chain(ms, q, b, c);
    let w = p + q.subrange(1, q.len() as int);
    assert forall|i: int| 0 <= i < w.len() - 1 implies adjacent(ms, #[trigger] w[i], w[i + 1]) by {
        if i < p.len() - 1 {
            assert(adjacent(ms, p[i], p[i + 1]));
        } else {
            let j = i - (p.len() - 1);
            assert(adjacent(ms, q[j], q[j + 1]));
            assert(w[i] == q[j]);
            assert(w[i + 1] == q[j + 1]);
        }
    }
    if q.len() > 1 {
        assert(w[w.len() - 1] == q[q.len() - 1]);
    }
    assert(chain(ms, w, a, c));
}

/// What holds of one place under its root: it is its own parent exactly when it is its own
/// root, its parent has the same root, and a higher rank where it is another place.
spec fn rooted_at(parent: Seq<usize>, root: Seq<int>, rank: Seq<int>, top: int, i: int) -> bool {
    &&& 0 <= parent[i] < parent.len()
    &&& 0 <= root[i] < parent.len()
    &&& 0 <= rank[i] <= top
    &&& (parent[i] == i <==> root[i] == i)
    &&& root[parent[i] as int] == root[i]
    &&& root[root[i]] == root[i]
    &&& parent[i] != i ==> rank[parent[i] as int] > rank[i]
}

/// Whether every place stands under its root.
spec fn rooted(parent: Seq<usize>, root: Seq<int>, rank: Seq<int>, top: int) -> bool {
    &&& root.len() == parent.len()
    &&& rank.len() == parent.len()
    &&& forall|i: int| 0 <= i < parent.len() ==> #[trigger] rooted_at(parent, root, rank, top, i)
}

/// The root of a place. Halves the path on the way up.
fn find(
    parent: &mut Vec<usize>,
    start: usize,
    Ghost(root): Ghost<Seq<int>>,
    Ghost(rank): Ghost<Seq<int>>,
    Ghost(top): Ghost<int>,
) -> (r: usize)
    requires
        rooted(old(parent)@, root, rank, top),
        start < old(parent)@.len(),
    ensures
        rooted(final(parent)@, root, rank, top),
        final(parent)@.len() == old(parent)@.len(),
        r == root[start as int],
{
    let mut node: usize = start;
    while parent[node] != node
        invariant
            rooted(parent@, root, rank, top),
            parent@.len() == old(parent)@.len(),
            start < parent@.len(),
            node < parent@.len(),
            root[node as int] == root[start as int],
        decreases top - rank[node as int],
    {
        let ghost was = parent@;
        proof {
            assert(rooted_at(was, root, rank, top, node as int));
        }
        let up: usize = parent[node];
        proof {
            assert(rooted_at(was, root, rank, top, up as int));
        }
        let grand: usize = parent[up];
        parent.set(node, grand);
        proof {
            assert forall|i: int| 0 <= i < parent@.len() implies #[trigger] rooted_at(
                parent@,
                root,
                rank,
                top,
                i,
            ) by {
                assert(rooted_at(was, root, rank, top, i));
            }
        }
        node = up;
    }
    proof {
        assert(rooted_at(parent@, root, rank, top, node as int));
    }
    node
}

proof fn last_place_holds(ms: Seq<Manifest>, name: Seq<char>)
    ensures
        last_place(ms, name) matches Some(at) ==> 0 <= at < ms.len() && ms[at].name@ == name,
        last_place(ms, name) is None ==> forall|i: int|
            0 <= i < ms.len() ==> (#[trigger] ms[i]).name@ != name,
    decreases ms.len(),
{
    if ms.len() > 0 {
        let less = ms.drop_last();
        last_place_holds(less, name);
        if ms.last().name@ != name && last_place(less, name) is None {
            assert forall|i: int| 0 <= i < ms.len() implies (#[trigger] ms[i]).name@ != name by {
                if i < ms.len() - 1 {
                    assert(less[i] == ms[i]);
                }
            }
        }
    }
}

/// The view of an optional place.
spec fn place_view(at: Option<usize>) -> Option<int> {
    match at {
        Some(at) => Some(at as int),
        None => None,
    }
}

/// The place of the last manifest with each name.
fn positions(manifests: &Vec<Manifest>) -> (r: NameMap<usize>)
    ensures
        r.wf(),
        forall|name: Seq<char>|
            place_view(#[trigger] r.at(name)) == last_place(manifests@, name),
{
    let n: usize = manifests.len();
    let mut out: NameMap<usize> = NameMap::new();
    let mut i: usize = 0;
    while i < n
        invariant
            n == manifests.len(),
            i <= n,
            out.wf(),
            forall|name: Seq<char>|
                place_view(#[trigger] out.at(name)) == last_place(
                    manifests@.subrange(0, i as int),
                    name,
                ),
        decreases n - i,
    {
        let ghost had = out;
        out.insert(manifests[i].name.clone(), i);
        proof {
            let here = manifests@.subrange(0, i + 1);
            assert(here.drop_last() =~= manifests@.subrange(0, i as int));
            assert forall|name: Seq<char>| place_view(#[trigger] out.at(name)) == last_place(
                here,
                name,
            ) by {
                assert(place_view(had.at(name)) == last_place(here.drop_last(), name));
            }
        }
        i = i + 1;
    }
    proof {
        assert(manifests@.subrange(0, n as int) =~= manifests@);
    }
    out
}

/// Whether places with one root are connected.
spec fn roots_connect(ms: Seq<Manifest>, root: Seq<int>) -> bool {
    forall|a: int, b: int|
        0 <= a < ms.len() && 0 <= b < ms.len() && #[trigger] root[a] == #[trigger] root[b]
            ==> connected(ms, a, b)
}

/// Whether the first `k` dependencies of a manifest lie under its root.
spec fn joined_upto(ms: Seq<Manifest>, root: Seq<int>, a: int, k: int) -> bool {
    forall|j: int|
        0 <= j < k ==> match last_place(ms, (#[trigger] ms[a].dependencies@[j]).0@) {
            Some(b) => root[a] == root[b],
            None => true,
        }
}

/// Roots after one of them was put under another.
spec fn merged(root: Seq<int>, left: int, right: int) -> Seq<int> {
    root.map_values(
        |r: int|
            if r == left {
                right
            } else {
                r
            },
    )
}

/// Whether what was joined before is joined after.
spec fn keeps_joined(before: Seq<int>, after: Seq<int>) -> bool {
    &&& before.len() == after.len()
    &&& forall|a: int, b: int|
        0 <= a < before.len() && 0 <= b < before.len() && before[a] == before[b]
            ==> #[trigger] after[a] == #[trigger] after[b]
}

proof fn merge_connects(ms: Seq<Manifest>, root: Seq<int>, at: int, other: int)
    requires
        root.len() == ms.len(),
        roots_connect(ms, root),
        0 <= at < ms.len(),
        0 <= other < ms.len(),
        depends(ms, at, other),
    ensures
        roots_connect(ms, merged(root, root[at], root[other])),
        keeps_joined(root, merged(root, root[at], root[other])),
{
    let after = merged(root, root[at], root[other]);
    assert(connected(ms, at, other)) by {
        assert(adjacent(ms, at, other));
        assert(chain(ms, seq![at, other], at, other));
    }
    connected_symmetric(ms, at, other);
    assert forall|a: int, b: int|
        0 <= a < ms.len() && 0 <= b < ms.len() && #[trigger] after[a] == #[trigger] after[b] implies connected(
        ms,
        a,
        b,
    ) by {
        if root[a] == root[b] {
        } else if root[a] == root[at] {
            // `b` lies with `other`.
            connected_transitive(ms, a, at, other);
            connected_transitive(ms, a, other, b);
        } else {
            connected_transitive(ms, a, other, at);
            connected_transitive(ms, a, at, b);
        }
    }
}

/// Ranks after a root was put under another.
spec fn lifted(rank: Seq<int>, left: int, right: int) -> Seq<int> {
    rank.update(
        right,
        if rank[right] > rank[left] {
            rank[right]
        } else {
            rank[left] + 1
        },
    )
}

proof fn link_is_rooted(
    parent: Seq<usize>,
    root: Seq<int>,
    rank: Seq<int>,
    top: int,
    left: usize,
    right: usize,
)
    requires
        rooted(parent, root, rank, top),
        left < parent.len(),
        right < parent.len(),
        left != right,
        root[left as int] == left,
        root[right as int] == right,
    ensures
        rooted(
            parent.update(left as int, right),
            merged(root, left as int, right as int),
            lifted(rank, left as int, right as int),
            top + 1,
        ),
{
    let over = merged(root, left as int, right as int);
    let risen = lifted(rank, left as int, right as int);
    let now = parent.update(left as int, right);
    assert(rooted_at(parent, root, rank, top, left as int));
    assert(rooted_at(parent, root, rank, top, right as int));
    assert forall|i: int| 0 <= i < now.len() implies #[trigger] rooted_at(
        now,
        over,
        risen,
        top + 1,
        i,
    ) by {
        assert(rooted_at(parent, root, rank, top, i));
    }
}

/// Puts two places under one root.
fn unite(
    parent: &mut Vec<usize>,
    at: usize,
    other: usize,
    Ghost(ms): Ghost<Seq<Manifest>>,
    Ghost(root): Ghost<Seq<int>>,
    Ghost(rank): Ghost<Seq<int>>,
    Ghost(top): Ghost<int>,
) -> (r: (Ghost<Seq<int>>, Ghost<Seq<int>>, Ghost<int>))
    requires
        rooted(old(parent)@, root, rank, top),
        old(parent)@.len() == ms.len(),
        at < ms.len(),
        other < ms.len(),
        roots_connect(ms, root),
        depends(ms, at as int, other as int),
    ensures
        final(parent)@.len() == old(parent)@.len(),
        rooted(final(parent)@, r.0@, r.1@, r.2@),
        roots_connect(ms, r.0@),
        keeps_joined(root, r.0@),
        r.0@[at as int] == r.0@[other as int],
{
    let left: usize = find(parent, at, Ghost(root), Ghost(rank), Ghost(top));
    let right: usize = find(parent, other, Ghost(root), Ghost(rank), Ghost(top));
    proof {
        assert(rooted_at(parent@, root, rank, top, at as int));
        assert(rooted_at(parent@, root, rank, top, other as int));
    }
    if left != right {
        let ghost was = parent@;
        parent.set(left, right);
        proof {
            merge_connects(ms, root, at as int, other as int);
            link_is_rooted(was, root, rank, top, left, right);
        }
        (
            Ghost(merged(root, left as int, right as int)),
            Ghost(lifted(rank, left as int, right as int)),
            Ghost(top + 1),
        )
    } else {
        (Ghost(root), Ghost(rank), Ghost(top))
    }
}

/// The component of each plugin: names that share a number share a component. The number is
/// the place of one of the component's plugins.
pub fn dependency_components(manifests: &Vec<Manifest>) -> (r: NameMap<usize>)
    ensures
        r.wf(),
        forall|name: Seq<char>| #[trigger]
            r.has(name) <==> last_place(manifests@, name) is Some,
        forall|name: Seq<char>| #[trigger]
            r.has(name) ==> connected(
                manifests@,
                last_place(manifests@, name)->0,
                r.at(name)->0 as int,
            ),
        forall|a: Seq<char>, b: Seq<char>| #[trigger]
            r.has(a) && #[trigger] r.has(b) ==> (r.at(a) == r.at(b) <==> connected(
                manifests@,
                last_place(manifests@, a)->0,
                last_place(manifests@, b)->0,
            )),
{
    let ghost ms = manifests@;
    let n: usize = manifests.len();
    let position = positions(manifests);
    let mut parent: Vec<usize> = Vec::new();
    let mut i: usize = 0;
    while i < n
        invariant
            i <= n,
            parent@.len() == i,
            forall|j: int| 0 <= j < i ==> #[trigger] parent@[j] == j,
        decreases n - i,
    {
        parent.push(i);
        i = i + 1;
    }
    let ghost mut root = Seq::new(n as nat, |i: int| i);
    let ghost mut rank = Seq::new(n as nat, |i: int| 0int);
    let ghost mut top = 0int;
    proof {
        assert forall|i: int| 0 <= i < n implies #[trigger] rooted_at(parent@, root, rank, top, i) by {}
        assert forall|a: int, b: int|
            0 <= a < ms.len() && 0 <= b < ms.len() && #[trigger] root[a] == #[trigger] root[b] implies connected(
            ms,
            a,
            b,
        ) by {
            connected_reflexive(ms, a);
        }
    }
    let mut at: usize = 0;
    while at < n
        invariant
            ms == manifests@,
            n == ms.len(),
            at <= n,
            parent@.len() == n,
            rooted(parent@, root, rank, top),
            roots_connect(ms, root),
            position.wf(),
            forall|name: Seq<char>|
                place_view(#[trigger] position.at(name)) == last_place(ms, name),
            forall|a: int|
                0 <= a < at ==> joined_upto(
                    ms,
                    root,
                    a,
                    (#[trigger] ms[a]).dependencies@.len() as int,
                ),
        decreases n - at,
    {
        let deps = &manifests[at].dependencies;
        let m: usize = deps.entries.len();
        let mut k: usize = 0;
        while k < m
            invariant
                ms == manifests@,
                n == ms.len(),
                at < n,
                *deps == ms[at as int].dependencies,
                m == deps.entries.len(),
                k <= m,
                parent@.len() == n,
                rooted(parent@, root, rank, top),
                roots_connect(ms, root),
                position.wf(),
                forall|name: Seq<char>|
                    place_view(#[trigger] position.at(name)) == last_place(ms, name),
                forall|a: int|
                    0 <= a < at ==> joined_upto(
                        ms,
                        root,
                        a,
                        (#[trigger] ms[a]).dependencies@.len() as int,
                    ),
                joined_upto(ms, root, at as int, k as int),
            decreases m - k,
        {
            let name = &deps.entries[k].0;
            let ghost before = root;
            proof {
                assert(ms[at as int].dependencies@[k as int].0@ == name@);
                last_place_holds(ms, name@);
                assert(place_view(position.at(name@)) == last_place(ms, name@));
            }
            match position.get(name.as_str()) {
                Some(found) => {
                    let other: usize = *found;
                    proof {
                        assert(depends(ms, at as int, other as int));
                    }
                    let (Ghost(over), Ghost(risen), Ghost(high)) = unite(
                        &mut parent,
                        at,
                        other,
                        Ghost(ms),
                        Ghost(root),
                        Ghost(rank),
                        Ghost(top),
                    );
                    proof {
                        root = over;
                        rank = risen;
                        top = high;
                    }
                },
                None => {},
            }
            proof {
                assert(keeps_joined(before, root));
                assert forall|a: int| 0 <= a < at implies joined_upto(
                    ms,
                    root,
                    a,
                    (#[trigger] ms[a]).dependencies@.len() as int,
                ) by {
                    still_joined(ms, before, root, a, ms[a].dependencies@.len() as int);
                }
                still_joined(ms, before, root, at as int, k as int);
            }
            k = k + 1;
        }
        at = at + 1;
    }
    proof {
        assert forall|a: int, b: int| #[trigger] adjacent(ms, a, b) implies root[a] == root[b] by {
            if depends(ms, a, b) {
                assert(joined_upto(ms, root, a, ms[a].dependencies@.len() as int));
                let k = choose|k: int|
                    0 <= k < ms[a].dependencies@.len() && last_place(
                        ms,
                        (#[trigger] ms[a].dependencies@[k]).0@,
                    ) == Some(b);
            } else {
                assert(joined_upto(ms, root, b, ms[b].dependencies@.len() as int));
                let k = choose|k: int|
                    0 <= k < ms[b].dependencies@.len() && last_place(
                        ms,
                        (#[trigger] ms[b].dependencies@[k]).0@,
                    ) == Some(a);
            }
        }
    }
    let mut out: NameMap<usize> = NameMap::new();
    let mut p: usize = 0;
    while p < n
        invariant
            ms == manifests@,
            n == ms.len(),
            p <= n,
            parent@.len() == n,
            rooted(parent@, root, rank, top),
            out.wf(),
            forall|name: Seq<char>|
                (#[trigger] out.at(name) is Some) == (last_place(ms.subrange(0, p as int), name)
                    is Some),
            forall|name: Seq<char>| #[trigger]
                out.at(name) is Some ==> out.at(name)->0 as int == root[last_place(
                    ms.subrange(0, p as int),
                    name,
                )->0],
        decreases n - p,
    {
        let representative: usize = find(&mut parent, p, Ghost(root), Ghost(rank), Ghost(top));
        let ghost had = out;
        out.insert(manifests[p].name.clone(), representative);
        proof {
            let here = ms.subrange(0, p + 1);
            assert(here.drop_last() =~= ms.subrange(0, p as int));
            assert forall|name: Seq<char>| (#[trigger] out.at(name) is Some) == (last_place(
                here,
                name,
            ) is Some) by {
                assert((had.at(name) is Some) == (last_place(here.drop_last(), name) is Some));
            }
            assert forall|name: Seq<char>| #[trigger] out.at(name) is Some implies out.at(
                name,
            )->0 as int == root[last_place(here, name)->0] by {
                assert(had.at(name) is Some ==> had.at(name)->0 as int == root[last_place(
                    here.drop_last(),
                    name,
                )->0]);
            }
        }
        p = p + 1;
    }
    proof {
        assert(ms.subrange(0, n as int) =~= ms);
        assert forall|name: Seq<char>| #[trigger] out.has(name) <==> last_place(ms, name) is Some by {
            assert(out.has(name) == (out.at(name) is Some));
        }
        assert forall|name: Seq<char>| #[trigger] out.has(name) implies connected(
            ms,
            last_place(ms, name)->0,
            out.at(name)->0 as int,
        ) by {
            last_place_holds(ms, name);
            let at = last_place(ms, name)->0;
            assert(out.at(name) is Some);
            assert(rooted_at(parent@, root, rank, top, at));
        }
        assert forall|a: Seq<char>, b: Seq<char>| #[trigger]
            out.has(a) && #[trigger] out.has(b) implies (out.at(a) == out.at(b) <==> connected(
            ms,
            last_place(ms, a)->0,
            last_place(ms, b)->0,
        )) by {
            last_place_holds(ms, a);
            last_place_holds(ms, b);
            let x = last_place(ms, a)->0;
            let y = last_place(ms, b)->0;
            assert(out.at(a) is Some && out.at(b) is Some);
            if connected(ms, x, y) {
                let path = choose|path: Seq<int>| chain(ms, path, x, y);
                one_root(ms, root, path, x, y);
            }
        }
    }
    out
}

proof fn still_joined(ms: Seq<Manifest>, before: Seq<int>, after: Seq<int>, a: int, k: int)
    requires
        before.len() == ms.len(),
        keeps_joined(before, after),
        joined_upto(ms, before, a, k),
        0 <= a < ms.len(),
        k <= ms[a].dependencies@.len(),
    ensures
        joined_upto(ms, after, a, k),
{
    assert forall|j: int| 0 <= j < k implies match last_place(
        ms,
        (#[trigger] ms[a].dependencies@[j]).0@,
    ) {
        Some(b) => after[a] == after[b],
        None => true,
    } by {
        last_place_holds(ms, ms[a].dependencies@[j].0@);
    }
}

/// A chain of dependencies lies under one root, where each dependency does.
proof fn one_root(ms: Seq<Manifest>, root: Seq<int>, p: Seq<int>, a: int, b: int)
    requires
        chain(ms, p, a, b),
        forall|x: int, y: int| #[trigger] adjacent(ms, x, y) ==> root[x] == root[y],
    ensures
        root[a] == root[b],
    decreases p.len(),
{
    if p.len() > 1 {
        let q = p.drop_last();
        assert(adjacent(ms, p[p.len() - 2], p[p.len() - 2 + 1]));
        assert forall|i: int| 0 <= i < q.len() - 1 implies adjacent(ms, #[trigger] q[i], q[i + 1]) by {
            assert(adjacent(ms, p[i], p[i + 1]));
        }
        assert(chain(ms, q, a, q[q.len() - 1]));
        one_root(ms, root, q, a, q[q.len() - 1]);
    }
}

} // verus!
