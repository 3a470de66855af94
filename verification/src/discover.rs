//! Discovery: what reading the plugin directories under a root comes to.

use crate::failure::{failed, Failed, FailureReason, LoadFailure, Why};
use crate::manifest::Manifest;
use crate::names;
use vstd::prelude::*;
use vstd::string::*;

verus! {

/// What is wrong with a manifest that was read, if anything. Of each rock it is known why its
/// requirement does not parse, if it does not.
pub open spec fn read_fault(manifest: Manifest, rocks: Seq<Option<String>>) -> Option<Seq<char>> {
    if manifest.name@.len() == 0 {
        Some("`name` must not be empty"@)
    } else {
        rock_fault(manifest.rocks@, rocks, 0)
    }
}

/// The first rock from `i` on whose requirement does not parse.
pub open spec fn rock_fault(
    rocks: Seq<(String, String)>,
    errors: Seq<Option<String>>,
    i: int,
) -> Option<Seq<char>>
    decreases rocks.len() - i,
{
    if i >= rocks.len() {
        None
    } else {
        match errors[i] {
            Some(error) => Some("rock `"@ + rocks[i].0@ + "`: "@ + error@),
            None => rock_fault(rocks, errors, i + 1),
        }
    }
}

/// Checks a manifest that was just read. A malformed requirement is caught here rather than
/// when the plugin is loaded.
pub fn check_read(manifest: &Manifest, rocks: &Vec<Option<String>>) -> (r: Result<
    (),
    FailureReason,
>)
    requires
        rocks@.len() == manifest.rocks@.len(),
    ensures
        match read_fault(*manifest, rocks@) {
            Some(message) => r matches Err(reason) && reason@ == Why::Manifest(message),
            None => r is Ok,
        },
{
    if manifest.name.as_str().is_empty() {
        return Err(FailureReason::Manifest("`name` must not be empty".to_owned()));
    }
    let n: usize = rocks.len();
    let mut i: usize = 0;
    while i < n
        invariant
            i <= n,
            n == rocks.len(),
            n == manifest.rocks@.len(),
            manifest.name@.len() > 0,
            read_fault(*manifest, rocks@) == rock_fault(manifest.rocks@, rocks@, i as int),
        decreases n - i,
    {
        if let Some(error) = &rocks[i] {
            let mut out = "rock `".to_owned();
            out.append(manifest.rocks.entries[i].0.as_str());
            out.append("`: ");
            out.append(error.as_str());
            return Err(FailureReason::Manifest(out));
        }
        i = i + 1;
    }
    Ok(())
}

/// A plugin directory, and what reading its manifest gave.
#[derive(Debug)]
pub struct Reading {
    /// The last step of the directory's path.
    pub name: String,
    /// The directory.
    pub dir: String,
    pub manifest: Result<Manifest, FailureReason>,
}

/// A reading put among readings by its name.
pub open spec fn put_reading(list: Seq<Reading>, reading: Reading) -> Seq<Reading>
    decreases list.len(),
{
    if list.len() > 0 && names::before(reading.name@, list.last().name@) {
        put_reading(list.drop_last(), reading).push(list.last())
    } else {
        list.push(reading)
    }
}

/// Readings by the names of their directories.
pub open spec fn in_order(list: Seq<Reading>) -> Seq<Reading>
    decreases list.len(),
{
    if list.len() == 0 {
        Seq::empty()
    } else {
        put_reading(in_order(list.drop_last()), list.last())
    }
}

/// The manifests among readings.
pub open spec fn manifests_of(list: Seq<Reading>) -> Seq<Manifest>
    decreases list.len(),
{
    if list.len() == 0 {
        Seq::empty()
    } else {
        match list.last().manifest {
            Ok(manifest) => manifests_of(list.drop_last()).push(manifest),
            Err(_) => manifests_of(list.drop_last()),
        }
    }
}

/// The failures among readings, each under the name of its directory.
pub open spec fn failures_of(list: Seq<Reading>) -> Seq<Failed>
    decreases list.len(),
{
    if list.len() == 0 {
        Seq::empty()
    } else {
        match list.last().manifest {
            Ok(_) => failures_of(list.drop_last()),
            Err(reason) => failures_of(list.drop_last()).push(
                Failed { name: list.last().name@, dir: list.last().dir@, reason: reason@ },
            ),
        }
    }
}

fn put(list: &mut Vec<Reading>, reading: Reading)
    ensures
        final(list)@ == put_reading(old(list)@, reading),
{
    let mut at: usize = list.len();
    proof {
        assert(list@.subrange(0, at as int) =~= list@);
        assert(put_reading(list@, reading) =~= put_reading(list@.subrange(0, at as int), reading)
            + list@.subrange(at as int, list@.len() as int));
    }
    while at > 0 && names::is_before(reading.name.as_str(), list[at - 1].name.as_str())
        invariant
            *list == *old(list),
            at <= list@.len(),
            put_reading(list@, reading) == put_reading(list@.subrange(0, at as int), reading)
                + list@.subrange(at as int, list@.len() as int),
        decreases at,
    {
        proof {
            let all = list@;
            let here = all.subrange(0, at as int);
            assert(here.last() == all[at - 1]);
            assert(here.drop_last() =~= all.subrange(0, at - 1));
            assert(put_reading(here, reading) + all.subrange(at as int, all.len() as int)
                =~= put_reading(all.subrange(0, at - 1), reading) + all.subrange(
                at - 1,
                all.len() as int,
            ));
        }
        at = at - 1;
    }
    let ghost all = list@;
    let ghost given = reading;
    proof {
        let here = all.subrange(0, at as int);
        if at > 0 {
            assert(here.last() == all[at - 1]);
        }
        assert(put_reading(here, reading) == here.push(reading));
    }
    list.insert(at, reading);
    proof {
        assert(list@ =~= all.subrange(0, at as int).push(given) + all.subrange(
            at as int,
            all.len() as int,
        ));
    }
}

/// What discovery finds: the manifests that could be read, and a failure for each that could
/// not, in the order of their directories. A directory is walked in no particular order.
pub fn discover(found: Vec<Reading>) -> (r: (Vec<Manifest>, Vec<LoadFailure>))
    ensures
        r.0@ == manifests_of(in_order(found@)),
        failed(r.1@) == failures_of(in_order(found@)),
{
    let n: usize = found.len();
    let ghost all = found@;
    let mut rest = found;
    let mut ordered: Vec<Reading> = Vec::new();
    let mut i: usize = 0;
    proof {
        assert(all.subrange(0, n as int) =~= all);
    }
    while i < n
        invariant
            i <= n,
            n == all.len(),
            rest@ == all.subrange(i as int, n as int),
            ordered@ == in_order(all.subrange(0, i as int)),
        decreases n - i,
    {
        proof {
            assert(all.subrange(0, i + 1).drop_last() =~= all.subrange(0, i as int));
            assert(rest@[0] == all[i as int]);
        }
        let reading = rest.remove(0);
        proof {
            assert(rest@ =~= all.subrange(i + 1, n as int));
        }
        put(&mut ordered, reading);
        i = i + 1;
    }
    proof {
        sorted_readings(all);
        assert(ordered@.subrange(0, 0) =~= Seq::empty());
    }
    let mut manifests: Vec<Manifest> = Vec::new();
    let mut failures: Vec<LoadFailure> = Vec::new();
    let ghost list = ordered@;
    let count: usize = ordered.len();
    proof {
        assert(list.subrange(0, count as int) =~= list);
    }
    i = 0;
    while i < count
        invariant
            i <= count,
            count == list.len(),
            ordered@ == list.subrange(i as int, count as int),
            manifests@ == manifests_of(list.subrange(0, i as int)),
            failed(failures@) == failures_of(list.subrange(0, i as int)),
        decreases count - i,
    {
        proof {
            assert(list.subrange(0, i + 1).drop_last() =~= list.subrange(0, i as int));
            assert(ordered@[0] == list[i as int]);
        }
        let reading = ordered.remove(0);
        proof {
            assert(ordered@ =~= list.subrange(i + 1, count as int));
        }
        match reading.manifest {
            Ok(manifest) => {
                manifests.push(manifest);
            },
            Err(reason) => {
                let ghost had = failures@;
                let failure = LoadFailure { name: reading.name, dir: reading.dir, reason };
                failures.push(failure);
                proof {
                    assert(failed(failures@) =~= failed(had).push(failure@));
                }
            },
        }
        i = i + 1;
    }
    (manifests, failures)
}

proof fn sorted_readings(list: Seq<Reading>)
    ensures
        in_order(list).to_multiset() == list.to_multiset(),
        in_order(list).len() == list.len(),
    decreases list.len(),
{
    broadcast use vstd::seq_lib::group_to_multiset_ensures;

    if list.len() > 0 {
        sorted_readings(list.drop_last());
        put_keeps(in_order(list.drop_last()), list.last());
        assert(list =~= list.drop_last().push(list.last()));
    } else {
        assert(in_order(list) =~= list);
    }
    assert(in_order(list).to_multiset().len() == in_order(list).len());
    assert(list.to_multiset().len() == list.len());
}

proof fn put_keeps(list: Seq<Reading>, reading: Reading)
    ensures
        put_reading(list, reading).to_multiset() == list.to_multiset().insert(reading),
    decreases list.len(),
{
    broadcast use vstd::seq_lib::group_to_multiset_ensures;

    if list.len() > 0 && names::before(reading.name@, list.last().name@) {
        put_keeps(list.drop_last(), reading);
        assert(list =~= list.drop_last().push(list.last()));
        assert(put_reading(list, reading).to_multiset() =~= list.to_multiset().insert(reading));
    }
}

/// Whether readings rise by their names, each name once.
pub open spec fn rising(list: Seq<Reading>) -> bool {
    forall|i: int, j: int|
        0 <= i < j < list.len() ==> names::before(
            (#[trigger] list[i]).name@,
            (#[trigger] list[j]).name@,
        )
}

/// Whether no two readings are of one name.
pub open spec fn distinct(list: Seq<Reading>) -> bool {
    forall|i: int, j: int|
        0 <= i < j < list.len() ==> (#[trigger] list[i]).name@ != (#[trigger] list[j]).name@
}

proof fn put_rises(list: Seq<Reading>, reading: Reading)
    requires
        rising(list),
        forall|i: int| 0 <= i < list.len() ==> (#[trigger] list[i]).name@ != reading.name@,
    ensures
        rising(put_reading(list, reading)),
        put_reading(list, reading).len() == list.len() + 1,
        forall|i: int|
            0 <= i <= list.len() ==> (#[trigger] put_reading(list, reading)[i] == reading || (
            list.contains(put_reading(list, reading)[i]))),
    decreases list.len(),
{
    let now = put_reading(list, reading);
    if list.len() > 0 && names::before(reading.name@, list.last().name@) {
        let most = list.drop_last();
        put_rises(most, reading);
        let part = put_reading(most, reading);
        assert forall|i: int| 0 <= i < part.len() implies names::before(
            (#[trigger] part[i]).name@,
            list.last().name@,
        ) by {
            if part[i] != reading {
                assert(most.contains(part[i]));
                let p = choose|p: int| 0 <= p < most.len() && most[p] == part[i];
                assert(list[p] == part[i]);
                assert(list[list.len() - 1] == list.last());
            }
        }
        assert forall|i: int| 0 <= i <= list.len() implies (#[trigger] now[i] == reading
            || list.contains(now[i])) by {
            if i < part.len() {
                assert(now[i] == part[i]);
                if part[i] != reading {
                    let p = choose|p: int| 0 <= p < most.len() && most[p] == part[i];
                    assert(list[p] == part[i]);
                }
            } else {
                assert(list[list.len() - 1] == now[i]);
            }
        }
    } else {
        assert forall|i: int, j: int| 0 <= i < j < now.len() implies names::before(
            (#[trigger] now[i]).name@,
            (#[trigger] now[j]).name@,
        ) by {
            if j == list.len() {
                let last = list[list.len() - 1];
                assert(last.name@ != reading.name@);
                names::before_total(last.name@, reading.name@);
                if i < list.len() - 1 {
                    assert(names::before(list[i].name@, last.name@));
                    names::before_transitive(list[i].name@, last.name@, reading.name@);
                }
            } else {
                assert(names::before(list[i].name@, list[j].name@));
            }
        }
        assert forall|i: int| 0 <= i <= list.len() implies (#[trigger] now[i] == reading
            || list.contains(now[i])) by {
            if i < list.len() {
                assert(list[i] == now[i]);
            }
        }
    }
}

proof fn order_rises(list: Seq<Reading>)
    requires
        distinct(list),
    ensures
        rising(in_order(list)),
    decreases list.len(),
{
    if list.len() > 0 {
        let most = list.drop_last();
        assert forall|i: int, j: int| 0 <= i < j < most.len() implies (#[trigger] most[i]).name@ != (
        #[trigger] most[j]).name@ by {
            assert(list[i].name@ != list[j].name@);
        }
        order_rises(most);
        sorted_readings(most);
        let ordered = in_order(most);
        assert forall|i: int| 0 <= i < ordered.len() implies (#[trigger] ordered[i]).name@
            != list.last().name@ by {
            same_members(ordered, most, ordered[i]);
            let p = choose|p: int| 0 <= p < most.len() && most[p] == ordered[i];
            assert(list[p].name@ != list[list.len() - 1].name@);
        }
        put_rises(ordered, list.last());
    }
}

proof fn same_members(a: Seq<Reading>, b: Seq<Reading>, reading: Reading)
    requires
        a.to_multiset() == b.to_multiset(),
        a.contains(reading),
    ensures
        b.contains(reading),
{
    broadcast use vstd::seq_lib::group_to_multiset_ensures;

    assert(a.to_multiset().count(reading) > 0);
    assert(b.to_multiset().count(reading) > 0);
}

/// The order in which a directory is walked does not show in what discovery finds.
pub proof fn walk_order_is_irrelevant(one: Seq<Reading>, other: Seq<Reading>)
    requires
        one.to_multiset() == other.to_multiset(),
        distinct(one),
        distinct(other),
    ensures
        manifests_of(in_order(one)) == manifests_of(in_order(other)),
        failures_of(in_order(one)) == failures_of(in_order(other)),
{
    let a = in_order(one);
    let b = in_order(other);
    order_rises(one);
    order_rises(other);
    sorted_readings(one);
    sorted_readings(other);
    let an = a.map_values(|r: Reading| r.name@);
    let bn = b.map_values(|r: Reading| r.name@);
    assert forall|i: int, j: int| 0 <= i < j < an.len() implies names::before(
        #[trigger] an[i],
        #[trigger] an[j],
    ) by {
        assert(names::before(a[i].name@, a[j].name@));
    }
    assert forall|i: int, j: int| 0 <= i < j < bn.len() implies names::before(
        #[trigger] bn[i],
        #[trigger] bn[j],
    ) by {
        assert(names::before(b[i].name@, b[j].name@));
    }
    assert forall|name: Seq<char>| an.contains(name) == bn.contains(name) by {
        if an.contains(name) {
            let p = choose|p: int| 0 <= p < an.len() && an[p] == name;
            assert(a.contains(a[p]));
            same_members(a, b, a[p]);
            let q = choose|q: int| 0 <= q < b.len() && b[q] == a[p];
            assert(bn[q] == name);
        }
        if bn.contains(name) {
            let p = choose|p: int| 0 <= p < bn.len() && bn[p] == name;
            assert(b.contains(b[p]));
            same_members(b, a, b[p]);
            let q = choose|q: int| 0 <= q < a.len() && a[q] == b[p];
            assert(an[q] == name);
        }
    }
    names::rising_unique(an, bn);
    assert(a.len() == b.len()) by {
        assert(an.len() == bn.len());
    }
    assert forall|i: int| 0 <= i < a.len() implies a[i] == b[i] by {
        assert(a.contains(a[i]));
        same_members(a, b, a[i]);
        let q = choose|q: int| 0 <= q < b.len() && b[q] == a[i];
        assert(an[i] == bn[i]);
        assert(bn[q] == a[i].name@);
        names::before_irreflexive(bn[i]);
        if q < i {
            assert(names::before(bn[q], bn[i]));
        } else if i < q {
            assert(names::before(bn[i], bn[q]));
        }
    }
    assert(a =~= b);
}

} // verus!
