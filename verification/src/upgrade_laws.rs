//! What holds of upgrade reviews: what a review shows, and what may go without a person.

use crate::capability::{declared, requested, says_optional, values, Declared};
use crate::manifest::{DependencySpec, Manifest, Param};
use crate::message_laws::{framed_one, tells_one};
use crate::names;
use crate::names::NameMap;
use crate::text::joined;
use crate::upgrade::{
    allowance, budget_diffs, capability_diffs, capability_diffs_upto, config_diffs, covered_by,
    dependency_diffs_upto, dependency_text, entry_diffs, had_item, has_key, lines_upto, merge,
    merge_holds, narrower, no_wider, other_diffs, place_in_merge, rendered, review, rock_diffs_upto,
    same_entries, same_entries_at, same_items_at, same_toml, shown, type_diffs, version_diffs,
    wider_upto, Diff,
};
use crate::value::{toml_entry_models, TomlModel};
use crate::version::version_order;
use crate::version::Order;
use vstd::prelude::*;
use vstd::string::*;

verus! {

/// Whether a value has no double in it.
pub open spec fn holds_no_float(value: TomlModel) -> bool
    decreases value,
{
    match value {
        TomlModel::Float(_) => false,
        TomlModel::Array(items) => forall|i: int|
            0 <= i < items.len() ==> holds_no_float(#[trigger] items[i]),
        TomlModel::Table(entries) => forall|i: int|
            0 <= i < entries.len() ==> holds_no_float((#[trigger] entries[i]).1),
        _ => true,
    }
}

/// Values without a double in them are equal only to themselves.
pub proof fn equal_values_are_the_same(a: TomlModel, b: TomlModel)
    requires
        holds_no_float(a),
    ensures
        same_toml(a, b) <==> a == b,
    decreases a,
{
    match a {
        TomlModel::Array(x) => {
            assert forall|i: int, other: TomlModel| 0 <= i < x.len() implies (#[trigger] same_toml(
                x[i],
                other,
            ) <==> x[i] == other) by {
                equal_values_are_the_same(x[i], other);
            }
            if b is Array {
                let y = b->Array_0;
                same_items_at(x, y);
                if same_toml(a, b) {
                    assert forall|i: int| 0 <= i < x.len() implies x[i] == y[i] by {
                        assert(same_toml(x[i], y[i]));
                    }
                    assert(x =~= y);
                }
            }
        },
        TomlModel::Table(x) => {
            assert forall|i: int, other: TomlModel| 0 <= i < x.len() implies (#[trigger] same_toml(
                x[i].1,
                other,
            ) <==> x[i].1 == other) by {
                equal_values_are_the_same(x[i].1, other);
            }
            if b is Table {
                let y = b->Table_0;
                same_entries_at(x, y);
                if same_toml(a, b) {
                    assert forall|i: int| 0 <= i < x.len() implies x[i] == y[i] by {
                        assert(x[i].0 == y[i].0);
                        assert(same_toml(x[i].1, y[i].1));
                    }
                    assert(x =~= y);
                }
            }
        },
        _ => {},
    }
}

/// Doubles are equal when they are the same number: neither is no number, and their bits are the
/// same or those of the two zeros.
pub proof fn equal_floats_are_one_number(a: u64, b: u64)
    ensures
        same_toml(TomlModel::Float(a), TomlModel::Float(b)) <==> {
            &&& a as int % 0x8000_0000_0000_0000 <= 0x7ff0_0000_0000_0000
            &&& b as int % 0x8000_0000_0000_0000 <= 0x7ff0_0000_0000_0000
            &&& a == b || (a as int % 0x8000_0000_0000_0000 == 0 && b as int
                % 0x8000_0000_0000_0000 == 0)
        },
{
}

/// Whether two values are of different sorts.
pub open spec fn of_different_sorts(a: TomlModel, b: TomlModel) -> bool {
    ||| a is Text != b is Text
    ||| a is Integer != b is Integer
    ||| a is Float != b is Float
    ||| a is Boolean != b is Boolean
    ||| a is Datetime != b is Datetime
    ||| a is Array != b is Array
    ||| a is Table != b is Table
}

/// Equality goes through a value: two lists are equal when their items are, place by place, and
/// two tables when their keys and values are; values of different sorts never are.
pub proof fn equality_goes_through(a: TomlModel, b: TomlModel)
    ensures
        of_different_sorts(a, b) ==> !same_toml(a, b),
        a is Array && b is Array ==> (same_toml(a, b) <==> a->Array_0.len() == b->Array_0.len()
            && forall|i: int|
            0 <= i < a->Array_0.len() ==> same_toml(#[trigger] a->Array_0[i], b->Array_0[i])),
        a is Table && b is Table ==> (same_toml(a, b) <==> a->Table_0.len() == b->Table_0.len()
            && forall|i: int|
            0 <= i < a->Table_0.len() ==> (#[trigger] a->Table_0[i]).0 == b->Table_0[i].0
                && same_toml(a->Table_0[i].1, b->Table_0[i].1)),
{
    if a is Array && b is Array {
        same_items_at(a->Array_0, b->Array_0);
    }
    if a is Table && b is Table {
        same_entries_at(a->Table_0, b->Table_0);
    }
}

/// Whether an item stands in a list.
pub open spec fn came_from(list: Seq<TomlModel>, item: TomlModel) -> bool {
    exists|i: int| 0 <= i < list.len() && same_toml(#[trigger] list[i], item)
}

/// A changed parameter counts as no wider in one case only: a list whose every item was in the old
/// list. Any other change widens, whatever its sort.
pub proof fn only_a_shorter_list_is_no_wider(old: TomlModel, new: TomlModel)
    ensures
        !(old is Array) || !(new is Array) ==> (no_wider(old, new) <==> same_toml(old, new)),
        old is Array && new is Array ==> (no_wider(old, new) <==> forall|j: int|
            0 <= j < new->Array_0.len() ==> came_from(old->Array_0, #[trigger] new->Array_0[j])),
        old is Text && new is Text ==> (no_wider(old, new) <==> old == new),
        old is Integer && new is Integer ==> (no_wider(old, new) <==> old == new),
        old is Boolean && new is Boolean ==> (no_wider(old, new) <==> old == new),
        old is Datetime && new is Datetime ==> (no_wider(old, new) <==> old == new),
{
    if old is Array && new is Array {
        let had = old->Array_0;
        let items = new->Array_0;
        same_items_at(had, items);
        assert forall|item: TomlModel| #[trigger] came_from(had, item) <==> had_item(had, item) by {
        }
        if same_toml(old, new) {
            assert forall|j: int| 0 <= j < items.len() implies came_from(had, #[trigger] items[j]) by {
                assert(same_toml(had[j], items[j]));
            }
        }
        if no_wider(old, new) && !same_toml(old, new) {
            assert forall|j: int| 0 <= j < items.len() implies came_from(had, #[trigger] items[j]) by {
                assert(had_item(had, items[j]));
            }
        }
        if forall|j: int| 0 <= j < items.len() ==> came_from(had, #[trigger] items[j]) {
            assert forall|j: int| 0 <= j < items.len() implies had_item(had, #[trigger] items[j]) by {
                assert(came_from(had, items[j]));
            }
        }
    }
}

/// Whether a parameter was asked for with a value that is no narrower.
pub open spec fn was_asked_for(before: Seq<Declared>, param: Declared) -> bool {
    exists|i: int|
        0 <= i < before.len() && (#[trigger] before[i]).0 == param.0 && no_wider(
            before[i].1.0,
            param.1.0,
        )
}

/// Whether a key is still given a value.
pub open spec fn is_still_given(after: Seq<Declared>, key: Seq<char>) -> bool {
    exists|j: int| 0 <= j < after.len() && (#[trigger] after[j]).0 == key
}

/// Parameters count as narrowed exactly when each that is asked for now was asked for, with a value
/// that is no wider, and none that held the old request back has gone.
pub proof fn narrowing_adds_and_drops_nothing(before: Seq<Declared>, after: Seq<Declared>)
    ensures
        narrower(before, after) <==> {
            &&& forall|j: int| 0 <= j < after.len() ==> was_asked_for(before, #[trigger] after[j])
            &&& forall|i: int|
                0 <= i < before.len() && (#[trigger] before[i]).0 != "optional"@ ==> is_still_given(
                    after,
                    before[i].0,
                )
        },
{
    assert forall|param: Declared| #[trigger] was_asked_for(before, param) <==> covered_by(
        before,
        param.0,
        param.1.0,
    ) by {}
    assert forall|key: Seq<char>| #[trigger] is_still_given(after, key) <==> has_key(
        after,
        key,
    ) by {}
    if forall|j: int| 0 <= j < after.len() ==> was_asked_for(before, #[trigger] after[j]) {
        assert forall|j: int| 0 <= j < after.len() implies covered_by(
            before,
            (#[trigger] after[j]).0,
            after[j].1.0,
        ) by {
            assert(was_asked_for(before, after[j]));
        }
    }
    if forall|i: int|
        0 <= i < before.len() && (#[trigger] before[i]).0 != "optional"@ ==> is_still_given(
            after,
            before[i].0,
        ) {
        assert forall|i: int| 0 <= i < before.len() implies (#[trigger] before[i]).0 == "optional"@
            || has_key(after, before[i].0) by {
            if before[i].0 != "optional"@ {
                assert(is_still_given(after, before[i].0));
            }
        }
    }
}

/// Whether two capabilities are asked for with the same parameters, `optional` apart.
pub open spec fn same_request(before: NameMap<Param>, after: NameMap<Param>) -> bool {
    let had = requested(declared(before));
    let has = requested(declared(after));
    had.len() == has.len() && forall|i: int|
        0 <= i < had.len() ==> (#[trigger] had[i]).0 == has[i].0 && same_toml(
            had[i].1.0,
            has[i].1.0,
        )
}

/// Whether a difference of capabilities is one that two versions show.
pub open spec fn is_true_of_capabilities(
    diff: Diff,
    before: NameMap<NameMap<Param>>,
    after: NameMap<NameMap<Param>>,
) -> bool {
    match diff {
        Diff::CapabilityAdded { name } => before.at(name) is None && after.at(name) is Some,
        Diff::CapabilityRemoved { name } => before.at(name) is Some && after.at(name) is None,
        Diff::CapabilityParams { name, before: from, after: to, narrowed } => {
            &&& before.at(name) matches Some(had)
            &&& after.at(name) matches Some(has)
            &&& !same_request(had, has)
            &&& from == rendered(requested(declared(had)))
            &&& to == rendered(requested(declared(has)))
            &&& narrowed == narrower(requested(declared(had)), requested(declared(has)))
        },
        Diff::CapabilityOptionality { name, before: was, after: is } => {
            &&& before.at(name) matches Some(had)
            &&& after.at(name) matches Some(has)
            &&& was == says_optional(declared(had))
            &&& is == says_optional(declared(has))
            &&& was != is
        },
        _ => false,
    }
}

/// Whether a difference of dependencies is one that two versions show.
pub open spec fn is_true_of_dependencies(
    diff: Diff,
    before: NameMap<DependencySpec>,
    after: NameMap<DependencySpec>,
) -> bool {
    match diff {
        Diff::DependencyAdded { name, requirement } => {
            &&& before.at(name) is None
            &&& after.at(name) matches Some(has)
            &&& requirement == has.required()
        },
        Diff::DependencyRemoved { name } => before.at(name) is Some && after.at(name) is None,
        Diff::DependencyChanged { name, before: from, after: to } => {
            &&& before.at(name) matches Some(had)
            &&& after.at(name) matches Some(has)
            &&& had.required() != has.required() || had.may_be_absent() != has.may_be_absent()
            &&& from == dependency_text(had)
            &&& to == dependency_text(has)
        },
        _ => false,
    }
}

/// Whether a difference of rocks is one that two versions show.
pub open spec fn is_true_of_rocks(diff: Diff, before: NameMap<String>, after: NameMap<String>) -> bool {
    match diff {
        Diff::RockAdded { name, requirement } => {
            &&& before.at(name) is None
            &&& after.at(name) matches Some(has)
            &&& requirement == has@
        },
        Diff::RockRemoved { name } => before.at(name) is Some && after.at(name) is None,
        Diff::RockChanged { name, before: from, after: to } => {
            &&& before.at(name) matches Some(had)
            &&& after.at(name) matches Some(has)
            &&& from == had@
            &&& to == has@
            &&& from != to
        },
        _ => false,
    }
}

/// Whether a difference is one that two manifests show.
pub open spec fn is_true_of(diff: Diff, installed: Manifest, candidate: Manifest) -> bool {
    match diff {
        Diff::NotNewer { before, after } => {
            &&& before == installed.published()
            &&& after == candidate.published()
            &&& version_order(after, before) != Order::Greater
        },
        Diff::EntryChanged { before, after } => {
            &&& before == installed.entry@
            &&& after == candidate.entry@
            &&& before != after
        },
        Diff::TypeChanged { before, after } => {
            &&& before == installed.plugin_type
            &&& after == candidate.plugin_type
            &&& before != after
        },
        Diff::BudgetChanged { before, after } => {
            &&& installed.budget != candidate.budget
            &&& match installed.budget {
                Some(budget) => before == Some(budget.max_instructions),
                None => before is None,
            }
            &&& match candidate.budget {
                Some(budget) => after == Some(budget.max_instructions),
                None => after is None,
            }
        },
        Diff::ConfigChanged => !same_toml(
            TomlModel::Table(toml_entry_models(installed.config.entries@)),
            TomlModel::Table(toml_entry_models(candidate.config.entries@)),
        ),
        _ => {
            ||| is_true_of_capabilities(diff, installed.capabilities, candidate.capabilities)
            ||| is_true_of_dependencies(diff, installed.dependencies, candidate.dependencies)
            ||| is_true_of_rocks(diff, installed.rocks, candidate.rocks)
        },
    }
}

proof fn in_parts(a: Seq<Diff>, b: Seq<Diff>, diff: Diff)
    ensures
        (a + b).contains(diff) <==> a.contains(diff) || b.contains(diff),
{
    let all = a + b;
    if a.contains(diff) {
        let i = choose|i: int| 0 <= i < a.len() && a[i] == diff;
        assert(all[i] == diff);
    }
    if b.contains(diff) {
        let i = choose|i: int| 0 <= i < b.len() && b[i] == diff;
        assert(all[a.len() + i] == diff);
    }
    if all.contains(diff) {
        let i = choose|i: int| 0 <= i < all.len() && all[i] == diff;
        if i < a.len() {
            assert(a[i] == diff);
        } else {
            assert(b[i - a.len()] == diff);
        }
    }
}

proof fn with_last(list: Seq<Diff>, last: Diff, diff: Diff)
    ensures
        list.push(last).contains(diff) <==> list.contains(diff) || last == diff,
{
    let all = list.push(last);
    assert(all =~= list + seq![last]);
    in_parts(list, seq![last], diff);
    assert(seq![last].contains(diff) <==> last == diff) by {
        assert(seq![last][0] == last);
    }
}

/// The name that a difference is about.
pub open spec fn is_about(diff: Diff, about: Seq<char>) -> bool {
    match diff {
        Diff::CapabilityAdded { name } => name == about,
        Diff::CapabilityRemoved { name } => name == about,
        Diff::CapabilityParams { name, .. } => name == about,
        Diff::CapabilityOptionality { name, .. } => name == about,
        Diff::DependencyAdded { name, .. } => name == about,
        Diff::DependencyRemoved { name } => name == about,
        Diff::DependencyChanged { name, .. } => name == about,
        Diff::RockAdded { name, .. } => name == about,
        Diff::RockRemoved { name } => name == about,
        Diff::RockChanged { name, .. } => name == about,
        _ => false,
    }
}

proof fn shown_of_a_capability(
    before: NameMap<NameMap<Param>>,
    after: NameMap<NameMap<Param>>,
    name: Seq<char>,
    diff: Diff,
)
    ensures
        capability_diffs(name, before.at(name), after.at(name)).contains(diff) <==> is_about(diff, name)
            && is_true_of_capabilities(diff, before, after),
{
    let here = capability_diffs(name, before.at(name), after.at(name));
    if before.at(name) is Some && after.at(name) is Some {
        let had = before.at(name)->0;
        let has = after.at(name)->0;
        let x = requested(declared(had));
        let y = requested(declared(has));
        let p = values(x);
        let q = values(y);
        same_entries_at(p, q);
        if same_request(had, has) {
            assert forall|i: int| 0 <= i < p.len() implies (#[trigger] p[i]).0 == q[i].0
                && same_toml(p[i].1, q[i].1) by {
                assert(x[i].0 == y[i].0);
            }
        }
        if same_entries(p, q) {
            assert forall|i: int| 0 <= i < x.len() implies (#[trigger] x[i]).0 == y[i].0
                && same_toml(x[i].1.0, y[i].1.0) by {
                assert(p[i].0 == q[i].0);
            }
        }
        assert(same_request(had, has) <==> same_entries(p, q));
        let params = Diff::CapabilityParams {
            name,
            before: rendered(x),
            after: rendered(y),
            narrowed: narrower(x, y),
        };
        let optionality = Diff::CapabilityOptionality {
            name,
            before: says_optional(declared(had)),
            after: says_optional(declared(has)),
        };
        let first = if same_request(had, has) {
            Seq::<Diff>::empty()
        } else {
            seq![params]
        };
        assert(seq![params][0] == params);
        assert(first.contains(diff) <==> !same_request(had, has) && diff == params);
        with_last(first, optionality, diff);
    } else if before.at(name) is Some {
        assert(here[0] == Diff::CapabilityRemoved { name });
    } else if after.at(name) is Some {
        assert(here[0] == Diff::CapabilityAdded { name });
    }
}

proof fn shown_of_capabilities(
    before: NameMap<NameMap<Param>>,
    after: NameMap<NameMap<Param>>,
    list: Seq<Seq<char>>,
    n: int,
    diff: Diff,
)
    requires
        0 <= n <= list.len(),
    ensures
        capability_diffs_upto(before, after, list, n).contains(diff) <==> is_true_of_capabilities(
            diff,
            before,
            after,
        ) && exists|k: int| 0 <= k < n && is_about(diff, #[trigger] list[k]),
    decreases n,
{
    if n > 0 {
        let name = list[n - 1];
        shown_of_capabilities(before, after, list, n - 1, diff);
        shown_of_a_capability(before, after, name, diff);
        in_parts(
            capability_diffs_upto(before, after, list, n - 1),
            capability_diffs(name, before.at(name), after.at(name)),
            diff,
        );
        if is_about(diff, name) {
            assert(is_about(diff, list[n - 1]));
        }
    }
}

proof fn shown_of_dependencies(
    before: NameMap<DependencySpec>,
    after: NameMap<DependencySpec>,
    list: Seq<Seq<char>>,
    n: int,
    diff: Diff,
)
    requires
        0 <= n <= list.len(),
    ensures
        dependency_diffs_upto(before, after, list, n).contains(diff) <==> is_true_of_dependencies(
            diff,
            before,
            after,
        ) && exists|k: int| 0 <= k < n && is_about(diff, #[trigger] list[k]),
    decreases n,
{
    if n > 0 {
        let name = list[n - 1];
        shown_of_dependencies(before, after, list, n - 1, diff);
        let less = dependency_diffs_upto(before, after, list, n - 1);
        let here = dependency_diffs_upto(before, after, list, n);
        if here.len() > less.len() {
            with_last(less, here.last(), diff);
            assert(here =~= less.push(here.last()));
        }
        if is_about(diff, name) {
            assert(is_about(diff, list[n - 1]));
        }
    }
}

proof fn shown_of_rocks(
    before: NameMap<String>,
    after: NameMap<String>,
    list: Seq<Seq<char>>,
    n: int,
    diff: Diff,
)
    requires
        0 <= n <= list.len(),
    ensures
        rock_diffs_upto(before, after, list, n).contains(diff) <==> is_true_of_rocks(
            diff,
            before,
            after,
        ) && exists|k: int| 0 <= k < n && is_about(diff, #[trigger] list[k]),
    decreases n,
{
    if n > 0 {
        let name = list[n - 1];
        shown_of_rocks(before, after, list, n - 1, diff);
        let less = rock_diffs_upto(before, after, list, n - 1);
        let here = rock_diffs_upto(before, after, list, n);
        if here.len() > less.len() {
            with_last(less, here.last(), diff);
            assert(here =~= less.push(here.last()));
        }
        if is_about(diff, name) {
            assert(is_about(diff, list[n - 1]));
        }
    }
}

proof fn name_is_listed<V>(before: NameMap<V>, after: NameMap<V>, diff: Diff, name: Seq<char>)
    requires
        is_about(diff, name),
        before.at(name) is Some || after.at(name) is Some,
    ensures
        exists|k: int|
            0 <= k < merge(before.keys(), after.keys()).len() && is_about(
                diff,
                #[trigger] merge(before.keys(), after.keys())[k],
            ),
{
    let k = place_in_merge(before, after, name);
    assert(is_about(diff, merge(before.keys(), after.keys())[k]));
}

/// The name of a difference that has one.
spec fn named_in(diff: Diff) -> Seq<char> {
    match diff {
        Diff::CapabilityAdded { name } => name,
        Diff::CapabilityRemoved { name } => name,
        Diff::CapabilityParams { name, .. } => name,
        Diff::CapabilityOptionality { name, .. } => name,
        Diff::DependencyAdded { name, .. } => name,
        Diff::DependencyRemoved { name } => name,
        Diff::DependencyChanged { name, .. } => name,
        Diff::RockAdded { name, .. } => name,
        Diff::RockRemoved { name } => name,
        Diff::RockChanged { name, .. } => name,
        _ => Seq::empty(),
    }
}

/// A review shows exactly what two versions differ in: everything in it is true of them, and
/// everything that they differ in is in it.
pub proof fn a_review_shows_every_difference(installed: Manifest, candidate: Manifest, diff: Diff)
    ensures
        review(installed, candidate).contains(diff) <==> is_true_of(diff, installed, candidate),
{
    let capabilities = merge(installed.capabilities.keys(), candidate.capabilities.keys());
    let dependencies = merge(installed.dependencies.keys(), candidate.dependencies.keys());
    let rocks = merge(installed.rocks.keys(), candidate.rocks.keys());
    let a = version_diffs(installed.published(), candidate.published());
    let b = entry_diffs(installed.entry@, candidate.entry@);
    let c = capability_diffs_upto(
        installed.capabilities,
        candidate.capabilities,
        capabilities,
        capabilities.len() as int,
    );
    let d = dependency_diffs_upto(
        installed.dependencies,
        candidate.dependencies,
        dependencies,
        dependencies.len() as int,
    );
    let e = rock_diffs_upto(installed.rocks, candidate.rocks, rocks, rocks.len() as int);
    let f = other_diffs(installed, candidate);
    in_parts(a, b, diff);
    in_parts(a + b, c, diff);
    in_parts(a + b + c, d, diff);
    in_parts(a + b + c + d, e, diff);
    in_parts(a + b + c + d + e, f, diff);
    shown_of_capabilities(
        installed.capabilities,
        candidate.capabilities,
        capabilities,
        capabilities.len() as int,
        diff,
    );
    shown_of_dependencies(
        installed.dependencies,
        candidate.dependencies,
        dependencies,
        dependencies.len() as int,
        diff,
    );
    shown_of_rocks(installed.rocks, candidate.rocks, rocks, rocks.len() as int, diff);
    let name = named_in(diff);
    if is_true_of_capabilities(diff, installed.capabilities, candidate.capabilities) {
        name_is_listed(installed.capabilities, candidate.capabilities, diff, name);
    }
    if is_true_of_dependencies(diff, installed.dependencies, candidate.dependencies) {
        name_is_listed(installed.dependencies, candidate.dependencies, diff, name);
    }
    if is_true_of_rocks(diff, installed.rocks, candidate.rocks) {
        name_is_listed(installed.rocks, candidate.rocks, diff, name);
    }
    assert(a.contains(diff) <==> diff is NotNewer && is_true_of(diff, installed, candidate)) by {
        if a.len() > 0 {
            assert(a[0] is NotNewer);
        }
    }
    assert(b.contains(diff) <==> diff is EntryChanged && is_true_of(diff, installed, candidate)) by {
        if b.len() > 0 {
            assert(b[0] is EntryChanged);
        }
    }
    other_differences(installed, candidate, diff);
}

proof fn other_differences(installed: Manifest, candidate: Manifest, diff: Diff)
    ensures
        other_diffs(installed, candidate).contains(diff) <==> (diff is TypeChanged
            || diff is BudgetChanged || diff is ConfigChanged) && is_true_of(
            diff,
            installed,
            candidate,
        ),
{
    let types = type_diffs(installed.plugin_type, candidate.plugin_type);
    let budgets = budget_diffs(allowance(installed.budget), allowance(candidate.budget));
    let configs = config_diffs(
        toml_entry_models(installed.config.entries@),
        toml_entry_models(candidate.config.entries@),
    );
    in_parts(types, budgets, diff);
    in_parts(types + budgets, configs, diff);
    assert(types.contains(diff) <==> diff is TypeChanged && is_true_of(diff, installed, candidate)) by {
        if types.len() > 0 {
            assert(types[0] is TypeChanged);
        }
    }
    assert(budgets.contains(diff) <==> diff is BudgetChanged && is_true_of(
        diff,
        installed,
        candidate,
    )) by {
        if budgets.len() > 0 {
            assert(budgets[0] is BudgetChanged);
        }
    }
    assert(configs.contains(diff) <==> diff is ConfigChanged && is_true_of(
        diff,
        installed,
        candidate,
    )) by {
        if configs.len() > 0 {
            assert(configs[0] is ConfigChanged);
        }
    }
}

/// What widens: a capability, a dependency or a rock that was not there, parameters that were not
/// narrowed, another entry, another signer, and a version that does not follow. Nothing else does.
pub proof fn what_widens(diff: Diff)
    ensures
        diff.is_wider() <==> {
            ||| diff is CapabilityAdded
            ||| diff is DependencyAdded
            ||| diff is RockAdded
            ||| diff is EntryChanged
            ||| diff is SignerChanged
            ||| diff is NotNewer
            ||| diff matches Diff::CapabilityParams { narrowed: false, .. }
        },
{
}

/// The concerns of a review are the changes in it that widen, in their order.
pub proof fn concerns_are_what_widens(list: Seq<Diff>, n: int)
    requires
        0 <= n <= list.len(),
    ensures
        wider_upto(list, n) == list.take(n).filter(|diff: Diff| diff.is_wider()),
    decreases n,
{
    reveal(Seq::filter);
    let wider = |diff: Diff| diff.is_wider();
    if n > 0 {
        concerns_are_what_widens(list, n - 1);
        assert(list.take(n).drop_last() =~= list.take(n - 1));
        assert(list.take(n).last() == list[n - 1]);
    } else {
        assert(list.take(0) =~= Seq::<Diff>::empty());
    }
}

proof fn framed_by(s: Seq<char>, x: Seq<char>, a: Seq<char>, y: Seq<char>)
    requires
        s == x + a + y,
    ensures
        tells_one(s, a),
{
    assert(framed_one(s, x, a, y));
}

proof fn told_further(front: Seq<char>, s: Seq<char>, behind: Seq<char>, a: Seq<char>)
    requires
        tells_one(s, a),
    ensures
        tells_one(front + s + behind, a),
{
    let (x, y) = choose|x: Seq<char>, y: Seq<char>| #[trigger] framed_one(s, x, a, y);
    assert(front + s + behind =~= (front + x) + a + (y + behind));
    framed_by(front + s + behind, front + x, a, y + behind);
}

/// What is joined tells each of its parts.
pub proof fn joined_tells_each_part(parts: Seq<Seq<char>>, sep: Seq<char>, i: int)
    requires
        0 <= i < parts.len(),
    ensures
        tells_one(joined(parts, sep), parts[i]),
    decreases parts.len(),
{
    let none = Seq::<char>::empty();
    if parts.len() == 1 {
        assert(parts[0] =~= none + parts[0] + none);
        framed_by(parts[0], none, parts[0], none);
    } else if i < parts.len() - 1 {
        joined_tells_each_part(parts.drop_last(), sep, i);
        let less = joined(parts.drop_last(), sep);
        told_further(none, less, sep + parts.last(), parts[i]);
        assert(none + less + (sep + parts.last()) =~= joined(parts, sep));
    } else {
        let less = joined(parts.drop_last(), sep);
        assert(joined(parts, sep) =~= (less + sep) + parts[i] + none);
        framed_by(joined(parts, sep), less + sep, parts[i], none);
    }
}

/// Parameters are shown whole: each with its key and its value.
pub proof fn every_parameter_is_shown(params: Seq<Declared>, i: int)
    requires
        0 <= i < params.len(),
    ensures
        tells_one(rendered(params), params[i].0 + " = "@ + params[i].1.1),
{
    let parts = params.map_values(|p: Declared| shown(p));
    joined_tells_each_part(parts, ", "@, i);
    assert(parts[i] == params[i].0 + " = "@ + params[i].1.1);
    told_further("{ "@, joined(parts, ", "@), " }"@, parts[i]);
}

/// A review is written whole: each change in it has its line.
pub proof fn every_change_is_written(list: Seq<Diff>, n: int, i: int)
    requires
        0 <= i < n <= list.len(),
    ensures
        tells_one(lines_upto(list, n), list[i].line()),
    decreases n,
{
    let none = Seq::<char>::empty();
    let less = lines_upto(list, n - 1);
    let last = list[n - 1].line();
    if i < n - 1 {
        every_change_is_written(list, n - 1, i);
        told_further(none, less, "  "@ + last + "\n"@, list[i].line());
        assert(none + less + ("  "@ + last + "\n"@) =~= lines_upto(list, n));
    } else {
        framed_by(lines_upto(list, n), less + "  "@, last, "\n"@);
    }
}

proof fn first_is_least(list: Seq<Seq<char>>, name: Seq<char>)
    requires
        names::rising(list),
        list.contains(name),
    ensures
        name == list[0] || names::before(list[0], name),
        names::rising(list.drop_first()),
{
    let i = choose|i: int| 0 <= i < list.len() && list[i] == name;
    if i > 0 {
        assert(names::before(list[0], list[i]));
    }
    let rest = list.drop_first();
    assert forall|i: int, j: int| 0 <= i < j < rest.len() implies names::before(
        #[trigger] rest[i],
        #[trigger] rest[j],
    ) by {
        assert(rest[i] == list[i + 1] && rest[j] == list[j + 1]);
    }
}

proof fn led_by_the_least(first: Seq<char>, rest: Seq<Seq<char>>)
    requires
        names::rising(rest),
        forall|name: Seq<char>| #[trigger] rest.contains(name) ==> names::before(first, name),
    ensures
        names::rising(seq![first] + rest),
{
    let all = seq![first] + rest;
    assert forall|i: int, j: int| 0 <= i < j < all.len() implies names::before(
        #[trigger] all[i],
        #[trigger] all[j],
    ) by {
        assert(all[j] == rest[j - 1]);
        assert(rest.contains(rest[j - 1]));
        if i > 0 {
            assert(all[i] == rest[i - 1]);
        }
    }
}

proof fn above_the_first(list: Seq<Seq<char>>, name: Seq<char>)
    requires
        names::rising(list),
        list.len() > 0,
        list.drop_first().contains(name),
    ensures
        names::before(list[0], name),
{
    let rest = list.drop_first();
    let i = choose|i: int| 0 <= i < rest.len() && rest[i] == name;
    assert(names::before(list[0], list[i + 1]));
}

proof fn rises_behind(list: Seq<Seq<char>>)
    requires
        names::rising(list),
        list.len() > 0,
    ensures
        names::rising(list.drop_first()),
{
    assert(list.contains(list[0]));
    first_is_least(list, list[0]);
}

/// What two versions declare is gone through in the order of the names, each once.
pub proof fn names_are_gone_through_in_order(a: Seq<Seq<char>>, b: Seq<Seq<char>>)
    requires
        names::rising(a),
        names::rising(b),
    ensures
        names::rising(merge(a, b)),
    decreases a.len() + b.len(),
{
    if a.len() > 0 && b.len() > 0 {
        rises_behind(a);
        rises_behind(b);
        if a[0] == b[0] {
            names_are_gone_through_in_order(a.drop_first(), b.drop_first());
            let rest = merge(a.drop_first(), b.drop_first());
            assert forall|name: Seq<char>| #[trigger] rest.contains(name) implies names::before(
                a[0],
                name,
            ) by {
                merge_holds(a.drop_first(), b.drop_first(), name);
                if a.drop_first().contains(name) {
                    above_the_first(a, name);
                } else {
                    above_the_first(b, name);
                }
            }
            led_by_the_least(a[0], rest);
        } else if names::before(a[0], b[0]) {
            names_are_gone_through_in_order(a.drop_first(), b);
            let rest = merge(a.drop_first(), b);
            assert forall|name: Seq<char>| #[trigger] rest.contains(name) implies names::before(
                a[0],
                name,
            ) by {
                merge_holds(a.drop_first(), b, name);
                if a.drop_first().contains(name) {
                    above_the_first(a, name);
                } else {
                    first_is_least(b, name);
                    if name != b[0] {
                        names::before_transitive(a[0], b[0], name);
                    }
                }
            }
            led_by_the_least(a[0], rest);
        } else {
            names::before_total(a[0], b[0]);
            names_are_gone_through_in_order(a, b.drop_first());
            let rest = merge(a, b.drop_first());
            assert forall|name: Seq<char>| #[trigger] rest.contains(name) implies names::before(
                b[0],
                name,
            ) by {
                merge_holds(a, b.drop_first(), name);
                if b.drop_first().contains(name) {
                    above_the_first(b, name);
                } else {
                    first_is_least(a, name);
                    if name != a[0] {
                        names::before_transitive(b[0], a[0], name);
                    }
                }
            }
            led_by_the_least(b[0], rest);
        }
    }
}

} // verus!
