//! Maps from names to values, kept in the order of their names.

use crate::text;
use vstd::prelude::*;

verus! {

/// Whether one text comes before another: by the first character in which they differ,
/// a text before what it is the beginning of.
pub open spec fn before(a: Seq<char>, b: Seq<char>) -> bool
    decreases a.len(),
{
    if b.len() == 0 {
        false
    } else if a.len() == 0 {
        true
    } else if a[0] == b[0] {
        before(a.drop_first(), b.drop_first())
    } else {
        a[0] < b[0]
    }
}

pub proof fn before_irreflexive(a: Seq<char>)
    ensures
        !before(a, a),
    decreases a.len(),
{
    if a.len() > 0 {
        before_irreflexive(a.drop_first());
    }
}

pub proof fn before_transitive(a: Seq<char>, b: Seq<char>, c: Seq<char>)
    requires
        before(a, b),
        before(b, c),
    ensures
        before(a, c),
    decreases a.len(),
{
    if a.len() > 0 && a[0] == b[0] && b[0] == c[0] {
        before_transitive(a.drop_first(), b.drop_first(), c.drop_first());
    }
}

pub proof fn before_total(a: Seq<char>, b: Seq<char>)
    ensures
        a == b || before(a, b) || before(b, a),
    decreases a.len(),
{
    if a.len() == 0 || b.len() == 0 {
        if a.len() == 0 && b.len() == 0 {
            assert(a =~= b);
        }
    } else if a[0] == b[0] {
        before_total(a.drop_first(), b.drop_first());
        if a.drop_first() == b.drop_first() {
            assert(a =~= seq![a[0]] + a.drop_first());
            assert(b =~= seq![b[0]] + b.drop_first());
        }
    }
}

pub proof fn before_asymmetric(a: Seq<char>, b: Seq<char>)
    requires
        before(a, b),
    ensures
        !before(b, a),
        a != b,
{
    before_irreflexive(a);
    if before(b, a) {
        before_transitive(a, b, a);
    }
}

/// Whether a text comes before another.
pub fn is_before(a: &str, b: &str) -> (r: bool)
    ensures
        r == before(a@, b@),
{
    let left = text::chars_of(a);
    let right = text::chars_of(b);
    let n: usize = left.len();
    let m: usize = right.len();
    let mut i: usize = 0;
    proof {
        assert(a@.subrange(0, n as int) =~= a@);
        assert(b@.subrange(0, m as int) =~= b@);
    }
    while i < n && i < m && left[i] == right[i]
        invariant
            left@ == a@,
            right@ == b@,
            n == left.len(),
            m == right.len(),
            i <= n,
            i <= m,
            before(a@, b@) == before(a@.subrange(i as int, n as int), b@.subrange(i as int, m as int)),
        decreases n - i,
    {
        proof {
            assert(a@.subrange(i as int, n as int).drop_first() =~= a@.subrange(i + 1, n as int));
            assert(b@.subrange(i as int, m as int).drop_first() =~= b@.subrange(i + 1, m as int));
        }
        i = i + 1;
    }
    if i >= m {
        false
    } else if i >= n {
        true
    } else {
        left[i] < right[i]
    }
}

/// A map from names to values. Each name occurs once, and the entries stand in the order
/// of their names.
#[derive(Clone, Debug, PartialEq, Eq)]
pub struct NameMap<V> {
    pub entries: Vec<(String, V)>,
}

/// The names of a list of entries.
pub open spec fn keys<V>(entries: Seq<(String, V)>) -> Seq<Seq<char>> {
    entries.map_values(|e: (String, V)| e.0@)
}

/// Whether names rise strictly.
pub open spec fn rising(names: Seq<Seq<char>>) -> bool {
    forall|i: int, j: int| 0 <= i < j < names.len() ==> before(#[trigger] names[i], #[trigger] names[j])
}

/// How many of the leading names come before a name: where it stands, or would stand.
pub open spec fn slot(names: Seq<Seq<char>>, name: Seq<char>) -> int
    decreases names.len(),
{
    if names.len() == 0 {
        0
    } else {
        let below = slot(names.drop_last(), name);
        if below == names.len() - 1 && before(names.last(), name) {
            below + 1
        } else {
            below
        }
    }
}

/// A slot lies among the names or at their end.
pub proof fn slot_bounds(names: Seq<Seq<char>>, name: Seq<char>)
    ensures
        0 <= slot(names, name) <= names.len(),
    decreases names.len(),
{
    if names.len() > 0 {
        slot_bounds(names.drop_last(), name);
    }
}

/// A slot is known by what stands below it and at it.
pub proof fn slot_is(names: Seq<Seq<char>>, name: Seq<char>, i: int)
    requires
        0 <= i <= names.len(),
        forall|j: int| 0 <= j < i ==> before(#[trigger] names[j], name),
        i < names.len() ==> !before(names[i], name),
    ensures
        slot(names, name) == i,
    decreases names.len(),
{
    if names.len() > 0 {
        let most = names.drop_last();
        assert forall|j: int| 0 <= j < i && j < most.len() implies before(#[trigger] most[j], name) by {
            assert(most[j] == names[j]);
        }
        if i < names.len() {
            if i < most.len() {
                assert(most[i] == names[i]);
            }
            slot_is(most, name, i);
        } else {
            slot_is(most, name, i - 1);
        }
    }
}

impl<V> View for NameMap<V> {
    type V = Seq<(String, V)>;

    open spec fn view(&self) -> Seq<(String, V)> {
        self.entries@
    }
}

impl<V> NameMap<V> {
    /// Each name once, in order.
    pub open spec fn wf(self) -> bool {
        rising(keys(self.entries@))
    }

    pub open spec fn keys(self) -> Seq<Seq<char>> {
        keys(self.entries@)
    }

    /// Whether a name has a value.
    pub open spec fn has(self, name: Seq<char>) -> bool {
        exists|i: int| 0 <= i < self.entries@.len() && #[trigger] self.entries@[i].0@ == name
    }

    /// Where a name stands.
    pub open spec fn place(self, name: Seq<char>) -> int {
        choose|i: int| 0 <= i < self.entries@.len() && #[trigger] self.entries@[i].0@ == name
    }

    /// What a name maps to.
    pub open spec fn at(self, name: Seq<char>) -> Option<V> {
        if self.has(name) {
            Some(self.entries@[self.place(name)].1)
        } else {
            None
        }
    }

    /// In a well formed map the entry at a place is what its name maps to.
    pub proof fn at_place(self, i: int)
        requires
            self.wf(),
            0 <= i < self.entries@.len(),
        ensures
            self.has(self.entries@[i].0@),
            self.place(self.entries@[i].0@) == i,
            self.at(self.entries@[i].0@) == Some(self.entries@[i].1),
    {
        let name = self.entries@[i].0@;
        let p = self.place(name);
        assert(self.has(name));
        let names = self.keys();
        assert(names[p] == name);
        assert(names[i] == name);
        if p < i {
            before_irreflexive(name);
            assert(before(names[p], names[i]));
        } else if i < p {
            before_irreflexive(name);
            assert(before(names[i], names[p]));
        }
    }

    pub fn new() -> (r: Self)
        ensures
            r.wf(),
            r@.len() == 0,
    {
        NameMap { entries: Vec::new() }
    }

    pub fn len(&self) -> (r: usize)
        ensures
            r == self@.len(),
    {
        self.entries.len()
    }

    pub fn is_empty(&self) -> (r: bool)
        ensures
            r == (self@.len() == 0),
    {
        self.entries.len() == 0
    }

    /// The place of a name, or the number of entries where it has none.
    fn locate(&self, name: &str) -> (r: usize)
        ensures
            r <= self@.len(),
            r < self@.len() ==> self@[r as int].0@ == name@,
            r == self@.len() ==> !self.has(name@),
    {
        let n: usize = self.entries.len();
        let mut i: usize = 0;
        while i < n
            invariant
                n == self@.len(),
                i <= n,
                forall|j: int| 0 <= j < i ==> (#[trigger] self@[j]).0@ != name@,
            decreases n - i,
        {
            if text::same(self.entries[i].0.as_str(), name) {
                return i;
            }
            i = i + 1;
        }
        n
    }

    /// What a name maps to.
    pub fn get(&self, name: &str) -> (r: Option<&V>)
        requires
            self.wf(),
        ensures
            match r {
                Some(v) => self.at(name@) == Some(*v),
                None => self.at(name@) is None,
            },
    {
        let at: usize = self.locate(name);
        if at < self.entries.len() {
            proof {
                self.at_place(at as int);
            }
            Some(&self.entries[at].1)
        } else {
            None
        }
    }

    pub fn contains_key(&self, name: &str) -> (r: bool)
        ensures
            r == self.has(name@),
    {
        self.locate(name) < self.entries.len()
    }

    /// Gives a name a value, in place of the one it had.
    pub fn insert(&mut self, name: String, value: V)
        requires
            old(self).wf(),
        ensures
            final(self).wf(),
            final(self).at(name@) == Some(value),
            forall|other: Seq<char>| other != name@ ==> final(self).at(other) == old(self).at(other),
            old(self).has(name@) ==> final(self).keys() == old(self).keys(),
            !old(self).has(name@) ==> final(self)@.len() == old(self)@.len() + 1,
            final(self)@ == ({
                let i = slot(old(self).keys(), name@);
                if i < old(self)@.len() && old(self)@[i].0@ == name@ {
                    old(self)@.update(i, (name, value))
                } else {
                    old(self)@.insert(i, (name, value))
                }
            }),
    {
        let n: usize = self.entries.len();
        let mut i: usize = 0;
        while i < n && is_before(self.entries[i].0.as_str(), name.as_str())
            invariant
                n == self@.len(),
                i <= n,
                *self == *old(self),
                forall|j: int| 0 <= j < i ==> before((#[trigger] self@[j]).0@, name@),
            decreases n - i,
        {
            i = i + 1;
        }
        let ghost was = *self;
        proof {
            slot_is(was.keys(), name@, i as int);
        }
        if i < n && self.entries[i].0 == name {
            let entry = (name, value);
            self.entries.set(i, entry);
            proof {
                assert(self.keys() =~= was.keys());
                self.at_place(i as int);
                was.at_place(i as int);
                assert forall|other: Seq<char>| other != name@ implies self.at(other) == was.at(other) by {
                    if was.has(other) {
                        let p = was.place(other);
                        assert(self@[p] == was@[p]);
                        self.at_place(p);
                    }
                    if self.has(other) {
                        let p = self.place(other);
                        assert(self@[p] == was@[p]);
                        was.at_place(p);
                    }
                }
            }
        } else {
            proof {
                // Every entry from `i` on comes after the name.
                assert forall|j: int| i <= j < n implies before(name@, (#[trigger] was@[j]).0@) by {
                    before_total(was@[i as int].0@, name@);
                    if i < j {
                        assert(before(was.keys()[i as int], was.keys()[j]));
                        before_transitive(name@, was@[i as int].0@, was@[j].0@);
                    }
                }
                assert(!was.has(name@)) by {
                    if was.has(name@) {
                        let p = was.place(name@);
                        before_irreflexive(name@);
                    }
                }
            }
            self.entries.insert(i, (name, value));
            proof {
                let now = self.keys();
                let then = was.keys();
                assert(now =~= then.insert(i as int, name@));
                assert forall|a: int, b: int| 0 <= a < b < now.len() implies before(
                    #[trigger] now[a],
                    #[trigger] now[b],
                ) by {
                    let pa = if a < i { a } else { a - 1 };
                    let pb = if b < i { b } else { b - 1 };
                    if a == i {
                        assert(now[b] == was@[pb].0@);
                    } else if b == i {
                        assert(now[a] == was@[pa].0@);
                    } else {
                        assert(now[a] == then[pa]);
                        assert(now[b] == then[pb]);
                    }
                }
                assert(self@[i as int].0@ == name@);
                self.at_place(i as int);
                assert forall|other: Seq<char>| other != name@ implies self.at(other) == was.at(other) by {
                    if was.has(other) {
                        let p = was.place(other);
                        let q = if p < i { p } else { p + 1 };
                        assert(self@[q] == was@[p]);
                        self.at_place(q);
                    }
                    if self.has(other) {
                        let q = self.place(other);
                        let p = if q < i { q } else { q - 1 };
                        assert(self@[q] == was@[p]);
                        was.at_place(p);
                    }
                }
            }
        }
    }

    /// Takes a name out.
    pub fn remove(&mut self, name: &str) -> (r: Option<V>)
        requires
            old(self).wf(),
        ensures
            final(self).wf(),
            r == old(self).at(name@),
            final(self).at(name@) is None,
            forall|other: Seq<char>| other != name@ ==> final(self).at(other) == old(self).at(other),
    {
        let at: usize = self.locate(name);
        let ghost was = *self;
        if at < self.entries.len() {
            let (_, value) = self.entries.remove(at);
            proof {
                was.at_place(at as int);
                let now = self.keys();
                let then = was.keys();
                assert(now =~= then.remove(at as int));
                assert forall|a: int, b: int| 0 <= a < b < now.len() implies before(
                    #[trigger] now[a],
                    #[trigger] now[b],
                ) by {
                    let pa = if a < at { a } else { a + 1 };
                    let pb = if b < at { b } else { b + 1 };
                    assert(now[a] == then[pa]);
                    assert(now[b] == then[pb]);
                }
                if self.has(name@) {
                    let q = self.place(name@);
                    let p = if q < at { q } else { q + 1 };
                    assert(self@[q] == was@[p]);
                    was.at_place(p);
                }
                assert forall|other: Seq<char>| other != name@ implies self.at(other) == was.at(other) by {
                    if was.has(other) {
                        let p = was.place(other);
                        let q = if p < at { p } else { p - 1 };
                        assert(self@[q] == was@[p]);
                        self.at_place(q);
                    }
                    if self.has(other) {
                        let q = self.place(other);
                        let p = if q < at { q } else { q + 1 };
                        assert(self@[q] == was@[p]);
                        was.at_place(p);
                    }
                }
            }
            Some(value)
        } else {
            None
        }
    }
}

/// Rising lists of the same names are the same list.
pub proof fn rising_unique(a: Seq<Seq<char>>, b: Seq<Seq<char>>)
    requires
        rising(a),
        rising(b),
        forall|name: Seq<char>| a.contains(name) == b.contains(name),
    ensures
        a == b,
    decreases a.len(),
{
    if a.len() == 0 {
        if b.len() > 0 {
            assert(b.contains(b[0]));
        }
        assert(a =~= b);
    } else {
        assert(a.contains(a[0]));
        assert(b.contains(a[0]));
        let p = choose|p: int| 0 <= p < b.len() && b[p] == a[0];
        assert(b.contains(b[0]));
        assert(a.contains(b[0]));
        let q = choose|q: int| 0 <= q < a.len() && a[q] == b[0];
        if p > 0 {
            assert(before(b[0], b[p]));
            if q > 0 {
                assert(before(a[0], a[q]));
                before_asymmetric(a[0], b[0]);
            }
            before_irreflexive(a[0]);
        }
        let ra = a.drop_first();
        let rb = b.drop_first();
        assert(rising(ra)) by {
            assert forall|i: int, j: int| 0 <= i < j < ra.len() implies before(
                #[trigger] ra[i],
                #[trigger] ra[j],
            ) by {
                assert(before(a[i + 1], a[j + 1]));
            }
        }
        assert(rising(rb)) by {
            assert forall|i: int, j: int| 0 <= i < j < rb.len() implies before(
                #[trigger] rb[i],
                #[trigger] rb[j],
            ) by {
                assert(before(b[i + 1], b[j + 1]));
            }
        }
        assert forall|name: Seq<char>| ra.contains(name) == rb.contains(name) by {
            if ra.contains(name) {
                let i = choose|i: int| 0 <= i < ra.len() && ra[i] == name;
                assert(a[i + 1] == name);
                assert(a.contains(name));
                let j = choose|j: int| 0 <= j < b.len() && b[j] == name;
                if j == 0 {
                    before_irreflexive(name);
                    assert(before(a[0], a[i + 1]));
                }
                assert(rb[j - 1] == name);
            }
            if rb.contains(name) {
                let i = choose|i: int| 0 <= i < rb.len() && rb[i] == name;
                assert(b[i + 1] == name);
                assert(b.contains(name));
                let j = choose|j: int| 0 <= j < a.len() && a[j] == name;
                if j == 0 {
                    before_irreflexive(name);
                    assert(before(b[0], b[i + 1]));
                }
                assert(ra[j - 1] == name);
            }
        }
        rising_unique(ra, rb);
        assert(a =~= seq![a[0]] + ra);
        assert(b =~= seq![b[0]] + rb);
    }
}

} // verus!
