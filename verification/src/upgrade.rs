//! Reviewing what changes when a plugin is upgraded, without running any of its code.
//!
//! Two versions of one plugin are compared by what they declare: did the upgrade quietly ask
//! for more than the version that was approved? Declarations are compared, not code, and
//! narrowing is inferred conservatively: any change that cannot be proved to be a narrowing
//! counts as a widening.

use crate::capability;
use crate::capability::{declared, requested, says_optional, split_optional, Declared};
use crate::manifest::{Budget, DependencySpec, Manifest, Param, PluginType};
use crate::names;
use crate::names::NameMap;
use crate::text;
use crate::value::{toml_entry_models, toml_entry_models_at, toml_models, toml_models_at, Toml, TomlModel};
use crate::version;
use crate::version::{Order, Version};
use vstd::prelude::*;
use vstd::string::*;

verus! {

/// The magnitude of a double, by its bits without the sign.
pub open spec fn magnitude(bits: u64) -> int {
    bits as int % 0x8000_0000_0000_0000
}

/// Whether the bits of a double are those of no number.
pub open spec fn is_nan(bits: u64) -> bool {
    magnitude(bits) > 0x7ff0_0000_0000_0000
}

/// Whether two doubles are equal: no number equals nothing, and the two zeros are equal.
pub open spec fn same_float(a: u64, b: u64) -> bool {
    !is_nan(a) && !is_nan(b) && (a == b || (magnitude(a) == 0 && magnitude(b) == 0))
}

/// Whether two TOML values are equal.
pub open spec fn same_toml(a: TomlModel, b: TomlModel) -> bool
    decreases a,
{
    match (a, b) {
        (TomlModel::Text(x), TomlModel::Text(y)) => x == y,
        (TomlModel::Integer(x), TomlModel::Integer(y)) => x == y,
        (TomlModel::Float(x), TomlModel::Float(y)) => same_float(x, y),
        (TomlModel::Boolean(x), TomlModel::Boolean(y)) => x == y,
        (TomlModel::Datetime(x), TomlModel::Datetime(y)) => x == y,
        (TomlModel::Array(x), TomlModel::Array(y)) => same_items(x, y),
        (TomlModel::Table(x), TomlModel::Table(y)) => same_entries(x, y),
        _ => false,
    }
}

/// Whether two lists of TOML values are equal.
pub open spec fn same_items(a: Seq<TomlModel>, b: Seq<TomlModel>) -> bool
    decreases a,
{
    if a.len() != b.len() {
        false
    } else if a.len() == 0 {
        true
    } else {
        same_items(a.drop_last(), b.drop_last()) && same_toml(a.last(), b.last())
    }
}

/// Whether two tables are equal.
pub open spec fn same_entries(a: Seq<(Seq<char>, TomlModel)>, b: Seq<(Seq<char>, TomlModel)>) -> bool
    decreases a,
{
    if a.len() != b.len() {
        false
    } else if a.len() == 0 {
        true
    } else {
        same_entries(a.drop_last(), b.drop_last()) && a.last().0 == b.last().0 && same_toml(
            a.last().1,
            b.last().1,
        )
    }
}

/// Two lists of TOML values are equal item by item.
pub proof fn same_items_at(a: Seq<TomlModel>, b: Seq<TomlModel>)
    ensures
        same_items(a, b) <==> a.len() == b.len() && forall|i: int|
            0 <= i < a.len() ==> same_toml(#[trigger] a[i], b[i]),
    decreases a,
{
    if a.len() == b.len() && a.len() > 0 {
        let x = a.drop_last();
        let y = b.drop_last();
        same_items_at(x, y);
        if same_items(a, b) {
            assert forall|i: int| 0 <= i < a.len() implies same_toml(#[trigger] a[i], b[i]) by {
                if i < a.len() - 1 {
                    assert(same_toml(x[i], y[i]));
                }
            }
        }
        if forall|i: int| 0 <= i < a.len() ==> same_toml(#[trigger] a[i], b[i]) {
            assert forall|i: int| 0 <= i < x.len() implies same_toml(#[trigger] x[i], y[i]) by {
                assert(same_toml(a[i], b[i]));
            }
            assert(same_toml(a[a.len() - 1], b[b.len() - 1]));
        }
    }
}

/// Two tables are equal entry by entry.
pub proof fn same_entries_at(a: Seq<(Seq<char>, TomlModel)>, b: Seq<(Seq<char>, TomlModel)>)
    ensures
        same_entries(a, b) <==> a.len() == b.len() && forall|i: int|
            0 <= i < a.len() ==> (#[trigger] a[i]).0 == b[i].0 && same_toml(a[i].1, b[i].1),
    decreases a,
{
    if a.len() == b.len() && a.len() > 0 {
        let x = a.drop_last();
        let y = b.drop_last();
        same_entries_at(x, y);
        if same_entries(a, b) {
            assert forall|i: int| 0 <= i < a.len() implies (#[trigger] a[i]).0 == b[i].0
                && same_toml(a[i].1, b[i].1) by {
                if i < a.len() - 1 {
                    assert(x[i].0 == y[i].0 && same_toml(x[i].1, y[i].1));
                }
            }
        }
        if forall|i: int|
            0 <= i < a.len() ==> (#[trigger] a[i]).0 == b[i].0 && same_toml(a[i].1, b[i].1) {
            assert forall|i: int| 0 <= i < x.len() implies (#[trigger] x[i]).0 == y[i].0
                && same_toml(x[i].1, y[i].1) by {
                assert(a[i].0 == b[i].0 && same_toml(a[i].1, b[i].1));
            }
            let last = a.len() - 1;
            assert(a[last].0 == b[last].0 && same_toml(a[last].1, b[last].1));
        }
    }
}

fn floats_equal(a: u64, b: u64) -> (r: bool)
    ensures
        r == same_float(a, b),
{
    let x: u64 = a % 0x8000_0000_0000_0000;
    let y: u64 = b % 0x8000_0000_0000_0000;
    x <= 0x7ff0_0000_0000_0000 && y <= 0x7ff0_0000_0000_0000 && (a == b || (x == 0 && y == 0))
}

/// Whether two TOML values are equal.
pub fn toml_equal(a: &Toml, b: &Toml) -> (r: bool)
    ensures
        r == same_toml(a.model(), b.model()),
    decreases a,
{
    match (a, b) {
        (Toml::Text(x), Toml::Text(y)) => *x == *y,
        (Toml::Integer(x), Toml::Integer(y)) => *x == *y,
        (Toml::Float(x), Toml::Float(y)) => floats_equal(*x, *y),
        (Toml::Boolean(x), Toml::Boolean(y)) => *x == *y,
        (Toml::Datetime(x), Toml::Datetime(y)) => *x == *y,
        (Toml::Array(x), Toml::Array(y)) => {
            proof {
                toml_models_at(x@);
                toml_models_at(y@);
                same_items_at(toml_models(x@), toml_models(y@));
            }
            let n: usize = x.len();
            if n != y.len() {
                return false;
            }
            let mut i: usize = 0;
            while i < n
                invariant
                    n == x.len(),
                    n == y.len(),
                    i <= n,
                    decreases_to!(a => x),
                    a.model() == TomlModel::Array(toml_models(x@)),
                    b.model() == TomlModel::Array(toml_models(y@)),
                    toml_models(x@).len() == n,
                    toml_models(y@).len() == n,
                    forall|j: int| 0 <= j < n ==> #[trigger] toml_models(x@)[j] == x@[j].model(),
                    forall|j: int| 0 <= j < n ==> #[trigger] toml_models(y@)[j] == y@[j].model(),
                    same_items(toml_models(x@), toml_models(y@)) <==> forall|j: int|
                        0 <= j < n ==> same_toml(#[trigger] toml_models(x@)[j], toml_models(y@)[j]),
                    forall|j: int|
                        0 <= j < i ==> same_toml(#[trigger] toml_models(x@)[j], toml_models(y@)[j]),
                decreases n - i,
            {
                if !toml_equal(&x[i], &y[i]) {
                    proof {
                        assert(!same_toml(toml_models(x@)[i as int], toml_models(y@)[i as int]));
                    }
                    return false;
                }
                i = i + 1;
            }
            true
        },
        (Toml::Table(x), Toml::Table(y)) => tables_equal(x, y),
        _ => false,
    }
}

/// Whether two tables are equal.
pub fn tables_equal(a: &NameMap<Toml>, b: &NameMap<Toml>) -> (r: bool)
    ensures
        r == same_entries(toml_entry_models(a.entries@), toml_entry_models(b.entries@)),
    decreases a,
{
    let ghost ma = toml_entry_models(a.entries@);
    let ghost mb = toml_entry_models(b.entries@);
    proof {
        toml_entry_models_at(a.entries@);
        toml_entry_models_at(b.entries@);
        same_entries_at(ma, mb);
    }
    let n: usize = a.entries.len();
    if n != b.entries.len() {
        return false;
    }
    let mut i: usize = 0;
    while i < n
        invariant
            n == a.entries.len(),
            n == b.entries.len(),
            i <= n,
            ma == toml_entry_models(a.entries@),
            mb == toml_entry_models(b.entries@),
            ma.len() == n,
            mb.len() == n,
            forall|j: int|
                0 <= j < n ==> #[trigger] ma[j] == (a.entries@[j].0@, a.entries@[j].1.model()),
            forall|j: int|
                0 <= j < n ==> #[trigger] mb[j] == (b.entries@[j].0@, b.entries@[j].1.model()),
            same_entries(ma, mb) <==> forall|j: int|
                0 <= j < n ==> (#[trigger] ma[j]).0 == mb[j].0 && same_toml(ma[j].1, mb[j].1),
            forall|j: int|
                0 <= j < i ==> (#[trigger] ma[j]).0 == mb[j].0 && same_toml(ma[j].1, mb[j].1),
        decreases n - i,
    {
        let x = &a.entries[i];
        let y = &b.entries[i];
        if x.0 != y.0 || !toml_equal(&x.1, &y.1) {
            proof {
                assert(!(ma[i as int].0 == mb[i as int].0 && same_toml(
                    ma[i as int].1,
                    mb[i as int].1,
                )));
            }
            return false;
        }
        i = i + 1;
    }
    true
}

/// One difference between two versions of a plugin's declarations.
#[allow(inconsistent_fields)]
#[derive(Debug, PartialEq, Eq)]
pub enum Change {
    /// The upgrade requests a capability the installed version did not.
    CapabilityAdded { name: String },
    /// The upgrade no longer requests a capability.
    CapabilityRemoved { name: String },
    /// The upgrade requests the same capability with different parameters. `narrowed` says
    /// whether the new parameters were proved to be no wider.
    CapabilityParams { name: String, before: String, after: String, narrowed: bool },
    /// A capability changed between required and optional.
    CapabilityOptionality { name: String, before: bool, after: bool },
    /// The upgrade declares a plugin dependency the installed version did not.
    DependencyAdded { name: String, requirement: String },
    /// The upgrade no longer declares a plugin dependency.
    DependencyRemoved { name: String },
    /// The upgrade declares the same plugin dependency otherwise: with another requirement, or
    /// as optional where it was required, or the other way round.
    DependencyChanged { name: String, before: String, after: String },
    /// The upgrade declares a LuaRocks package the installed version did not. Always a
    /// concern: rocks are a second supply chain that nothing here signs.
    RockAdded { name: String, requirement: String },
    /// The upgrade no longer declares a LuaRocks package.
    RockRemoved { name: String },
    /// The upgrade declares the same LuaRocks package with another requirement.
    RockChanged { name: String, before: String, after: String },
    /// The upgrade runs in another runtime.
    TypeChanged { before: PluginType, after: PluginType },
    /// The upgrade declares another instruction budget.
    BudgetChanged { before: Option<u64>, after: Option<u64> },
    /// The upgrade is configured otherwise.
    ConfigChanged,
    /// The upgrade evaluates a different entry chunk.
    EntryChanged { before: String, after: String },
    /// The upgrade is signed by a different identity, or is no longer signed.
    SignerChanged { before: String, after: String },
    /// The upgrade's version is not greater than the installed one.
    NotNewer { before: Version, after: Version },
}

/// What a difference is, apart from how it is stored.
#[allow(inconsistent_fields)]
pub enum Diff {
    CapabilityAdded { name: Seq<char> },
    CapabilityRemoved { name: Seq<char> },
    CapabilityParams { name: Seq<char>, before: Seq<char>, after: Seq<char>, narrowed: bool },
    CapabilityOptionality { name: Seq<char>, before: bool, after: bool },
    DependencyAdded { name: Seq<char>, requirement: Seq<char> },
    DependencyRemoved { name: Seq<char> },
    DependencyChanged { name: Seq<char>, before: Seq<char>, after: Seq<char> },
    RockAdded { name: Seq<char>, requirement: Seq<char> },
    RockRemoved { name: Seq<char> },
    RockChanged { name: Seq<char>, before: Seq<char>, after: Seq<char> },
    TypeChanged { before: PluginType, after: PluginType },
    BudgetChanged { before: Option<u64>, after: Option<u64> },
    ConfigChanged,
    EntryChanged { before: Seq<char>, after: Seq<char> },
    SignerChanged { before: Seq<char>, after: Seq<char> },
    NotNewer { before: Seq<char>, after: Seq<char> },
}

impl View for Change {
    type V = Diff;

    open spec fn view(&self) -> Diff {
        match *self {
            Change::CapabilityAdded { name } => Diff::CapabilityAdded { name: name@ },
            Change::CapabilityRemoved { name } => Diff::CapabilityRemoved { name: name@ },
            Change::CapabilityParams { name, before, after, narrowed } => Diff::CapabilityParams { name: name@, before: before@, after: after@, narrowed },
            Change::CapabilityOptionality { name, before, after } => Diff::CapabilityOptionality { name: name@, before, after },
            Change::DependencyAdded { name, requirement } => Diff::DependencyAdded { name: name@, requirement: requirement@ },
            Change::DependencyRemoved { name } => Diff::DependencyRemoved { name: name@ },
            Change::DependencyChanged { name, before, after } => Diff::DependencyChanged { name: name@, before: before@, after: after@ },
            Change::RockChanged { name, before, after } => Diff::RockChanged { name: name@, before: before@, after: after@ },
            Change::TypeChanged { before, after } => Diff::TypeChanged { before, after },
            Change::BudgetChanged { before, after } => Diff::BudgetChanged { before, after },
            Change::ConfigChanged => Diff::ConfigChanged,
            Change::RockAdded { name, requirement } => Diff::RockAdded { name: name@, requirement: requirement@ },
            Change::RockRemoved { name } => Diff::RockRemoved { name: name@ },
            Change::EntryChanged { before, after } => Diff::EntryChanged { before: before@, after: after@ },
            Change::SignerChanged { before, after } => Diff::SignerChanged { before: before@, after: after@ },
            Change::NotNewer { before, after } => Diff::NotNewer { before: before@, after: after@ },
        }
    }
}

impl Diff {
    /// Whether a difference grants the plugin reach it did not have before.
    pub open spec fn is_wider(self) -> bool {
        match self {
            Diff::CapabilityParams { narrowed, .. } => !narrowed,
            Diff::CapabilityRemoved { .. } => false,
            Diff::DependencyRemoved { .. } => false,
            Diff::RockRemoved { .. } => false,
            Diff::CapabilityOptionality { .. } => false,
            Diff::DependencyChanged { .. } => false,
            Diff::RockChanged { .. } => false,
            Diff::TypeChanged { .. } => false,
            Diff::BudgetChanged { .. } => false,
            Diff::ConfigChanged => false,
            _ => true,
        }
    }

    /// How a difference is written.
    pub open spec fn line(self) -> Seq<char> {
        match self {
            Diff::CapabilityAdded { name } => "+ capability `"@ + name + "`"@,
            Diff::CapabilityRemoved { name } => "- capability `"@ + name + "`"@,
            Diff::CapabilityParams { name, before, after, narrowed } => marker(narrowed) + " capability `"@ + name + "`: "@ + before + " -> "@ + after,
            Diff::CapabilityOptionality { name, before, after } => "~ capability `"@ + name + "`: "@ + optionality(before) + " -> "@ + optionality(after),
            Diff::DependencyAdded { name, requirement } => "+ dependency `"@ + name + "` "@ + requirement,
            Diff::DependencyRemoved { name } => "- dependency `"@ + name + "`"@,
            Diff::DependencyChanged { name, before, after } => "~ dependency `"@ + name + "`: "@ + before + " -> "@ + after,
            Diff::RockChanged { name, before, after } => "~ rock `"@ + name + "`: "@ + before + " -> "@ + after + " (unsigned, outside the sandbox)"@,
            Diff::TypeChanged { before, after } => "~ type: "@ + runtime_text(before) + " -> "@ + runtime_text(after),
            Diff::BudgetChanged { before, after } => "~ budget: "@ + budget_text(before) + " -> "@ + budget_text(after),
            Diff::ConfigChanged => "~ config"@,
            Diff::RockAdded { name, requirement } => "+ rock `"@ + name + "` "@ + requirement + " (unsigned, outside the sandbox)"@,
            Diff::RockRemoved { name } => "- rock `"@ + name + "`"@,
            Diff::EntryChanged { before, after } => "! entry: "@ + before + " -> "@ + after,
            Diff::SignerChanged { before, after } => "! signer: "@ + before + " -> "@ + after,
            Diff::NotNewer { before, after } => "! version "@ + after + " does not follow the installed "@ + before,
        }
    }
}

/// How a budget is written.
pub open spec fn budget_text(budget: Option<u64>) -> Seq<char> {
    match budget {
        Some(limit) => text::decimal(limit as nat),
        None => "none"@,
    }
}

/// How a runtime is written.
pub open spec fn runtime_text(kind: PluginType) -> Seq<char> {
    match kind {
        PluginType::Lua => "lua"@,
        PluginType::Wasm => "wasm"@,
    }
}

/// How a dependency is written.
pub open spec fn dependency_text(dependency: DependencySpec) -> Seq<char> {
    if dependency.may_be_absent() {
        dependency.required() + " (optional)"@
    } else {
        dependency.required()
    }
}

/// Whether two dependencies ask for the same.
pub open spec fn same_dependency(before: DependencySpec, after: DependencySpec) -> bool {
    before.required() == after.required() && before.may_be_absent() == after.may_be_absent()
}

fn write_budget(budget: Option<u64>) -> (r: String)
    ensures
        r@ == budget_text(budget),
{
    match budget {
        Some(limit) => text::number(limit),
        None => "none".to_owned(),
    }
}

fn write_type(kind: PluginType) -> (r: &'static str)
    ensures
        r@ == runtime_text(kind),
{
    match kind {
        PluginType::Lua => "lua",
        PluginType::Wasm => "wasm",
    }
}

fn write_dependency(dependency: &DependencySpec) -> (r: String)
    ensures
        r@ == dependency_text(*dependency),
{
    let mut out = dependency.requirement().to_string();
    if dependency.is_optional() {
        out.append(" (optional)");
    }
    out
}

/// The mark before a change of parameters.
pub open spec fn marker(narrowed: bool) -> Seq<char> {
    if narrowed {
        "~"@
    } else {
        "!"@
    }
}

/// How optionality is written.
pub open spec fn optionality(optional: bool) -> Seq<char> {
    if optional {
        "optional"@
    } else {
        "required"@
    }
}

fn marker_of(narrowed: bool) -> (r: &'static str)
    ensures
        r@ == marker(narrowed),
{
    if narrowed {
        "~"
    } else {
        "!"
    }
}

fn optionality_of(optional: bool) -> (r: &'static str)
    ensures
        r@ == optionality(optional),
{
    if optional {
        "optional"
    } else {
        "required"
    }
}

impl Change {
    /// Whether this change grants the plugin reach it did not have before. Losing authority
    /// is never a widening; gaining or altering it is, unless the alteration is provably a
    /// narrowing.
    pub fn widens(&self) -> (r: bool)
        ensures
            r == self@.is_wider(),
    {
        match self {
            Change::CapabilityParams { name: _, before: _, after: _, narrowed } => !*narrowed,
            Change::CapabilityRemoved { name: _ } => false,
            Change::DependencyRemoved { name: _ } => false,
            Change::RockRemoved { name: _ } => false,
            Change::CapabilityOptionality { name: _, before: _, after: _ } => false,
            Change::DependencyChanged { name: _, before: _, after: _ } => false,
            Change::RockChanged { name: _, before: _, after: _ } => false,
            Change::TypeChanged { before: _, after: _ } => false,
            Change::BudgetChanged { before: _, after: _ } => false,
            Change::ConfigChanged => false,
            _ => true,
        }
    }

    /// The change written out.
    pub fn to_string(&self) -> (r: String)
        ensures
            r@ == self@.line(),
    {
        match self {
            Change::CapabilityAdded { name } => {
                let mut out = "+ capability `".to_owned();
                out.append(name.as_str());
                out.append("`");
                out
            },
            Change::CapabilityRemoved { name } => {
                let mut out = "- capability `".to_owned();
                out.append(name.as_str());
                out.append("`");
                out
            },
            Change::CapabilityParams { name, before, after, narrowed } => {
                let mut out = marker_of(*narrowed).to_owned();
                out.append(" capability `");
                out.append(name.as_str());
                out.append("`: ");
                out.append(before.as_str());
                out.append(" -> ");
                out.append(after.as_str());
                out
            },
            Change::CapabilityOptionality { name, before, after } => {
                let mut out = "~ capability `".to_owned();
                out.append(name.as_str());
                out.append("`: ");
                out.append(optionality_of(*before));
                out.append(" -> ");
                out.append(optionality_of(*after));
                out
            },
            Change::DependencyAdded { name, requirement } => {
                let mut out = "+ dependency `".to_owned();
                out.append(name.as_str());
                out.append("` ");
                out.append(requirement.as_str());
                out
            },
            Change::DependencyRemoved { name } => {
                let mut out = "- dependency `".to_owned();
                out.append(name.as_str());
                out.append("`");
                out
            },
            Change::DependencyChanged { name, before, after } => {
                let mut out = "~ dependency `".to_owned();
                out.append(name.as_str());
                out.append("`: ");
                out.append(before.as_str());
                out.append(" -> ");
                out.append(after.as_str());
                out
            },
            Change::RockChanged { name, before, after } => {
                let mut out = "~ rock `".to_owned();
                out.append(name.as_str());
                out.append("`: ");
                out.append(before.as_str());
                out.append(" -> ");
                out.append(after.as_str());
                out.append(" (unsigned, outside the sandbox)");
                out
            },
            Change::TypeChanged { before, after } => {
                let mut out = "~ type: ".to_owned();
                out.append(write_type(*before));
                out.append(" -> ");
                out.append(write_type(*after));
                out
            },
            Change::BudgetChanged { before, after } => {
                let mut out = "~ budget: ".to_owned();
                out.append(write_budget(*before).as_str());
                out.append(" -> ");
                out.append(write_budget(*after).as_str());
                out
            },
            Change::ConfigChanged => "~ config".to_owned(),
            Change::RockAdded { name, requirement } => {
                let mut out = "+ rock `".to_owned();
                out.append(name.as_str());
                out.append("` ");
                out.append(requirement.as_str());
                out.append(" (unsigned, outside the sandbox)");
                out
            },
            Change::RockRemoved { name } => {
                let mut out = "- rock `".to_owned();
                out.append(name.as_str());
                out.append("`");
                out
            },
            Change::EntryChanged { before, after } => {
                let mut out = "! entry: ".to_owned();
                out.append(before.as_str());
                out.append(" -> ");
                out.append(after.as_str());
                out
            },
            Change::SignerChanged { before, after } => {
                let mut out = "! signer: ".to_owned();
                out.append(before.as_str());
                out.append(" -> ");
                out.append(after.as_str());
                out
            },
            Change::NotNewer { before, after } => {
                let mut out = "! version ".to_owned();
                out.append(after.as_str());
                out.append(" does not follow the installed ");
                out.append(before.as_str());
                out
            },
        }
    }
}

/// The differences of a list.
pub open spec fn diffs(list: Seq<Change>) -> Seq<Diff> {
    list.map_values(|c: Change| c@)
}

/// Whether a parameter asks for no more than another: the same value, or a list of which
/// every item was in the other.
pub open spec fn no_wider(old: TomlModel, new: TomlModel) -> bool {
    same_toml(old, new) || match (old, new) {
        (TomlModel::Array(had), TomlModel::Array(items)) => forall|j: int|
            0 <= j < items.len() ==> had_item(had, #[trigger] items[j]),
        _ => false,
    }
}

/// Whether a list holds an item.
pub open spec fn had_item(had: Seq<TomlModel>, item: TomlModel) -> bool {
    exists|i: int| 0 <= i < had.len() && same_toml(#[trigger] had[i], item)
}

/// Whether parameters have a value under a key that asks for no less than another.
pub open spec fn covered_by(before: Seq<Declared>, key: Seq<char>, new: TomlModel) -> bool {
    exists|i: int|
        0 <= i < before.len() && (#[trigger] before[i]).0 == key && no_wider(before[i].1.0, new)
}

/// Whether parameters have a key.
pub open spec fn has_key(params: Seq<Declared>, key: Seq<char>) -> bool {
    exists|i: int| 0 <= i < params.len() && (#[trigger] params[i]).0 == key
}

/// Whether parameters can be proved to ask for no more than others: each is covered, and
/// none that constrained the old request is gone.
pub open spec fn narrower(before: Seq<Declared>, after: Seq<Declared>) -> bool {
    &&& forall|j: int|
        0 <= j < after.len() ==> covered_by(before, (#[trigger] after[j]).0, after[j].1.0)
    &&& forall|i: int|
        0 <= i < before.len() ==> (#[trigger] before[i]).0 == "optional"@ || has_key(
            after,
            before[i].0,
        )
}

fn item_is_in(had: &Vec<Toml>, item: &Toml) -> (r: bool)
    ensures
        r == had_item(toml_models(had@), item.model()),
{
    proof {
        toml_models_at(had@);
    }
    let n: usize = had.len();
    let mut i: usize = 0;
    while i < n
        invariant
            n == had.len(),
            toml_models(had@).len() == n,
            forall|j: int| 0 <= j < n ==> #[trigger] toml_models(had@)[j] == had@[j].model(),
            i <= n,
            forall|j: int| 0 <= j < i ==> !same_toml(#[trigger] toml_models(had@)[j], item.model()),
        decreases n - i,
    {
        if toml_equal(&had[i], item) {
            proof {
                assert(same_toml(toml_models(had@)[i as int], item.model()));
            }
            return true;
        }
        i = i + 1;
    }
    false
}

fn is_no_wider(old: &Toml, new: &Toml) -> (r: bool)
    ensures
        r == no_wider(old.model(), new.model()),
        !(old is Array && new is Array) ==> r == same_toml(old.model(), new.model()),
{
    if toml_equal(old, new) {
        return true;
    }
    match (old, new) {
        (Toml::Array(had), Toml::Array(items)) => {
            proof {
                toml_models_at(items@);
            }
            let n: usize = items.len();
            let mut i: usize = 0;
            while i < n
                invariant
                    n == items.len(),
                    !same_toml(old.model(), new.model()),
                    old.model() == TomlModel::Array(toml_models(had@)),
                    new.model() == TomlModel::Array(toml_models(items@)),
                    toml_models(items@).len() == n,
                    forall|j: int|
                        0 <= j < n ==> #[trigger] toml_models(items@)[j] == items@[j].model(),
                    i <= n,
                    forall|j: int|
                        0 <= j < i ==> had_item(
                            toml_models(had@),
                            #[trigger] toml_models(items@)[j],
                        ),
                decreases n - i,
            {
                if !item_is_in(had, &items[i]) {
                    proof {
                        assert(!had_item(toml_models(had@), toml_models(items@)[i as int]));
                    }
                    return false;
                }
                i = i + 1;
            }
            true
        },
        _ => false,
    }
}

/// In a well formed declaration a key has one value.
proof fn declared_at(params: NameMap<Param>, key: Seq<char>)
    requires
        params.wf(),
    ensures
        has_key(declared(params), key) <==> params.has(key),
        params.at(key) matches Some(param) ==> forall|i: int|
            0 <= i < declared(params).len() && (#[trigger] declared(params)[i]).0 == key
                ==> declared(params)[i].1.0 == param.value.model(),
{
    let all = declared(params);
    if has_key(all, key) {
        let i = choose|i: int| 0 <= i < all.len() && (#[trigger] all[i]).0 == key;
        assert(params@[i].0@ == key);
    }
    if params.has(key) {
        let p = params.place(key);
        assert(all[p].0 == key);
        assert forall|i: int| 0 <= i < all.len() && (#[trigger] all[i]).0 == key implies all[i].1.0
            == params.at(key)->0.value.model() by {
            assert(params@[i].0@ == key);
            params.at_place(i);
        }
    }
}

/// Whether `after` can be proved to ask for no more than `before`.
///
/// Parameters are defined by the host, so only shapes that can be reasoned about count: an
/// unchanged value, and an array whose every element already appeared in the other. Anything
/// else is treated as a widening.
pub fn narrows(before: &NameMap<Param>, after: &NameMap<Param>) -> (r: bool)
    requires
        before.wf(),
        after.wf(),
    ensures
        r == narrower(declared(*before), declared(*after)),
{
    let ghost old_all = declared(*before);
    let ghost new_all = declared(*after);
    let n: usize = after.entries.len();
    let mut j: usize = 0;
    while j < n
        invariant
            before.wf(),
            old_all == declared(*before),
            new_all == declared(*after),
            n == after.entries.len(),
            j <= n,
            forall|k: int|
                0 <= k < j ==> covered_by(old_all, (#[trigger] new_all[k]).0, new_all[k].1.0),
        decreases n - j,
    {
        let entry = &after.entries[j];
        proof {
            assert(new_all[j as int].0 == entry.0@);
            assert(new_all[j as int].1.0 == entry.1.value.model());
            declared_at(*before, entry.0@);
        }
        match before.get(entry.0.as_str()) {
            Some(old) => {
                if !is_no_wider(&old.value, &entry.1.value) {
                    proof {
                        assert(!covered_by(old_all, new_all[j as int].0, new_all[j as int].1.0));
                    }
                    return false;
                }
                proof {
                    let p = before.place(entry.0@);
                    assert(old_all[p].0 == entry.0@);
                }
            },
            None => {
                proof {
                    if covered_by(old_all, new_all[j as int].0, new_all[j as int].1.0) {
                        assert(has_key(old_all, entry.0@));
                    }
                }
                return false;
            },
        }
        j = j + 1;
    }
    let m: usize = before.entries.len();
    let mut i: usize = 0;
    while i < m
        invariant
            after.wf(),
            old_all == declared(*before),
            new_all == declared(*after),
            m == before.entries.len(),
            i <= m,
            forall|k: int|
                0 <= k < new_all.len() ==> covered_by(
                    old_all,
                    (#[trigger] new_all[k]).0,
                    new_all[k].1.0,
                ),
            forall|k: int|
                0 <= k < i ==> (#[trigger] old_all[k]).0 == "optional"@ || has_key(
                    new_all,
                    old_all[k].0,
                ),
        decreases m - i,
    {
        let key = &before.entries[i].0;
        proof {
            assert(old_all[i as int].0 == key@);
            declared_at(*after, key@);
        }
        if !text::same(key.as_str(), "optional") && !after.contains_key(key.as_str()) {
            return false;
        }
        i = i + 1;
    }
    true
}

/// One parameter as it is rendered.
pub open spec fn shown(param: Declared) -> Seq<char> {
    param.0 + " = "@ + param.1.1
}

/// Parameters on one line.
pub open spec fn rendered(params: Seq<Declared>) -> Seq<char> {
    if params.len() == 0 {
        "{}"@
    } else {
        "{ "@ + text::joined(params.map_values(|p: Declared| shown(p)), ", "@) + " }"@
    }
}

/// Renders a parameter table on one line, for a diff a person reads.
pub fn render(params: &NameMap<Param>) -> (r: String)
    ensures
        r@ == rendered(declared(*params)),
{
    let n: usize = params.entries.len();
    if n == 0 {
        return "{}".to_owned();
    }
    let ghost all = declared(*params).map_values(|p: Declared| shown(p));
    let mut parts: Vec<String> = Vec::new();
    let mut i: usize = 0;
    while i < n
        invariant
            n == params.entries.len(),
            all == declared(*params).map_values(|p: Declared| shown(p)),
            i <= n,
            parts@.len() == i,
            forall|k: int| 0 <= k < i ==> (#[trigger] parts@[k])@ == all[k],
        decreases n - i,
    {
        let entry = &params.entries[i];
        let mut part = entry.0.clone();
        part.append(" = ");
        part.append(entry.1.text.as_str());
        parts.push(part);
        i = i + 1;
    }
    proof {
        assert(text::texts(parts@) =~= all);
    }
    let mut out = "{ ".to_owned();
    out.append(text::join(&parts, ", ").as_str());
    out.append(" }");
    out
}

/// The names of two lists in their order, each once where both hold it.
pub open spec fn merge(a: Seq<Seq<char>>, b: Seq<Seq<char>>) -> Seq<Seq<char>>
    decreases a.len() + b.len(),
{
    if a.len() == 0 {
        b
    } else if b.len() == 0 {
        a
    } else if a[0] == b[0] {
        seq![a[0]] + merge(a.drop_first(), b.drop_first())
    } else if names::before(a[0], b[0]) {
        seq![a[0]] + merge(a.drop_first(), b)
    } else {
        seq![b[0]] + merge(a, b.drop_first())
    }
}

/// The names of two maps.
fn all_names<A, B>(a: &NameMap<A>, b: &NameMap<B>) -> (r: Vec<String>)
    ensures
        text::texts(r@) == merge(a.keys(), b.keys()),
{
    let n: usize = a.entries.len();
    let m: usize = b.entries.len();
    let mut out: Vec<String> = Vec::new();
    let mut i: usize = 0;
    let mut j: usize = 0;
    let ghost whole = merge(a.keys(), b.keys());
    proof {
        assert(a.keys().skip(0) =~= a.keys());
        assert(b.keys().skip(0) =~= b.keys());
        assert(text::texts(out@) + whole =~= whole);
    }
    while i < n || j < m
        invariant
            n == a.entries.len(),
            m == b.entries.len(),
            i <= n,
            j <= m,
            text::texts(out@) + merge(a.keys().skip(i as int), b.keys().skip(j as int)) == whole,
        decreases n - i + m - j,
    {
        let ghost ra = a.keys().skip(i as int);
        let ghost rb = b.keys().skip(j as int);
        let ghost had = text::texts(out@);
        proof {
            if ra.len() > 0 {
                assert(ra.drop_first() =~= a.keys().skip(i + 1));
                assert(ra[0] == a.entries@[i as int].0@);
                assert(ra =~= seq![ra[0]] + ra.drop_first());
            }
            if rb.len() > 0 {
                assert(rb.drop_first() =~= b.keys().skip(j + 1));
                assert(rb[0] == b.entries@[j as int].0@);
                assert(rb =~= seq![rb[0]] + rb.drop_first());
            }
        }
        let ghost next;
        if i >= n {
            out.push(b.entries[j].0.clone());
            proof {
                next = rb[0];
                assert(ra.len() == 0);
                assert(merge(ra, rb.drop_first()) == rb.drop_first());
            }
            j = j + 1;
        } else if j >= m {
            out.push(a.entries[i].0.clone());
            proof {
                next = ra[0];
                assert(rb.len() == 0);
                if ra.drop_first().len() == 0 {
                    assert(ra.drop_first() =~= rb);
                }
                assert(merge(ra.drop_first(), rb) == ra.drop_first());
            }
            i = i + 1;
        } else if a.entries[i].0 == b.entries[j].0 {
            out.push(a.entries[i].0.clone());
            proof {
                next = ra[0];
            }
            i = i + 1;
            j = j + 1;
        } else if names::is_before(a.entries[i].0.as_str(), b.entries[j].0.as_str()) {
            out.push(a.entries[i].0.clone());
            proof {
                next = ra[0];
            }
            i = i + 1;
        } else {
            out.push(b.entries[j].0.clone());
            proof {
                next = rb[0];
            }
            j = j + 1;
        }
        proof {
            assert(text::texts(out@) =~= had.push(next));
            let rest = merge(a.keys().skip(i as int), b.keys().skip(j as int));
            assert(merge(ra, rb) == seq![next] + rest);
            assert(had + (seq![next] + rest) =~= had.push(next) + rest);
        }
    }
    proof {
        assert(merge(a.keys().skip(i as int), b.keys().skip(j as int)).len() == 0);
        assert(text::texts(out@) + merge(a.keys().skip(i as int), b.keys().skip(j as int))
            =~= text::texts(out@));
    }
    out
}

/// What two versions declare of one capability differs in.
pub open spec fn capability_diffs(
    name: Seq<char>,
    before: Option<NameMap<Param>>,
    after: Option<NameMap<Param>>,
) -> Seq<Diff> {
    match (before, after) {
        (None, Some(_)) => seq![Diff::CapabilityAdded { name }],
        (Some(_), None) => seq![Diff::CapabilityRemoved { name }],
        (Some(before), Some(after)) => {
            let old_params = requested(declared(before));
            let new_params = requested(declared(after));
            let params = if same_entries(
                capability::values(old_params),
                capability::values(new_params),
            ) {
                Seq::<Diff>::empty()
            } else {
                seq![
                    Diff::CapabilityParams {
                        name,
                        before: rendered(old_params),
                        after: rendered(new_params),
                        narrowed: narrower(old_params, new_params),
                    },
                ]
            };
            if says_optional(declared(before)) != says_optional(declared(after)) {
                params.push(
                    Diff::CapabilityOptionality {
                        name,
                        before: says_optional(declared(before)),
                        after: says_optional(declared(after)),
                    },
                )
            } else {
                params
            }
        },
        (None, None) => Seq::empty(),
    }
}

/// What two versions declare of the first `n` capabilities differs in.
pub open spec fn capability_diffs_upto(
    before: NameMap<NameMap<Param>>,
    after: NameMap<NameMap<Param>>,
    list: Seq<Seq<char>>,
    n: int,
) -> Seq<Diff>
    decreases n,
{
    if n <= 0 {
        Seq::empty()
    } else {
        capability_diffs_upto(before, after, list, n - 1) + capability_diffs(
            list[n - 1],
            before.at(list[n - 1]),
            after.at(list[n - 1]),
        )
    }
}

/// What two versions declare of the first `n` dependencies differs in.
pub open spec fn dependency_diffs_upto(
    before: NameMap<DependencySpec>,
    after: NameMap<DependencySpec>,
    list: Seq<Seq<char>>,
    n: int,
) -> Seq<Diff>
    decreases n,
{
    if n <= 0 {
        Seq::empty()
    } else {
        let done = dependency_diffs_upto(before, after, list, n - 1);
        let name = list[n - 1];
        match (before.at(name), after.at(name)) {
            (None, Some(dependency)) => done.push(
                Diff::DependencyAdded { name, requirement: dependency.required() },
            ),
            (Some(_), None) => done.push(Diff::DependencyRemoved { name }),
            (Some(had), Some(has)) => if same_dependency(had, has) {
                done
            } else {
                done.push(
                    Diff::DependencyChanged {
                        name,
                        before: dependency_text(had),
                        after: dependency_text(has),
                    },
                )
            },
            (None, None) => done,
        }
    }
}

/// What two versions declare of the first `n` rocks differs in.
pub open spec fn rock_diffs_upto(
    before: NameMap<String>,
    after: NameMap<String>,
    list: Seq<Seq<char>>,
    n: int,
) -> Seq<Diff>
    decreases n,
{
    if n <= 0 {
        Seq::empty()
    } else {
        let done = rock_diffs_upto(before, after, list, n - 1);
        let name = list[n - 1];
        match (before.at(name), after.at(name)) {
            (None, Some(requirement)) => done.push(
                Diff::RockAdded { name, requirement: requirement@ },
            ),
            (Some(_), None) => done.push(Diff::RockRemoved { name }),
            (Some(had), Some(has)) => if had@ == has@ {
                done
            } else {
                done.push(Diff::RockChanged { name, before: had@, after: has@ })
            },
            (None, None) => done,
        }
    }
}

/// Everything that two manifests of one plugin differ in: the version, the entry, then the
/// capabilities, the dependencies and the rocks, each in the order of their names, and what
/// else they declare.
pub open spec fn review(installed: Manifest, candidate: Manifest) -> Seq<Diff> {
    let from = installed.published();
    let to = candidate.published();
    let capabilities = merge(installed.capabilities.keys(), candidate.capabilities.keys());
    let dependencies = merge(installed.dependencies.keys(), candidate.dependencies.keys());
    let rocks = merge(installed.rocks.keys(), candidate.rocks.keys());
    version_diffs(from, to) + entry_diffs(installed.entry@, candidate.entry@)
        + capability_diffs_upto(
        installed.capabilities,
        candidate.capabilities,
        capabilities,
        capabilities.len() as int,
    ) + dependency_diffs_upto(
        installed.dependencies,
        candidate.dependencies,
        dependencies,
        dependencies.len() as int,
    ) + rock_diffs_upto(installed.rocks, candidate.rocks, rocks, rocks.len() as int)
        + other_diffs(installed, candidate)
}

/// What a manifest allows itself.
pub open spec fn allowance(budget: Option<Budget>) -> Option<u64> {
    match budget {
        Some(budget) => Some(budget.max_instructions),
        None => None,
    }
}

/// That an upgrade runs in another runtime, where it does.
pub open spec fn type_diffs(before: PluginType, after: PluginType) -> Seq<Diff> {
    if before == after {
        Seq::empty()
    } else {
        seq![Diff::TypeChanged { before, after }]
    }
}

/// That an upgrade declares another budget, where it does.
pub open spec fn budget_diffs(before: Option<u64>, after: Option<u64>) -> Seq<Diff> {
    if before == after {
        Seq::empty()
    } else {
        seq![Diff::BudgetChanged { before, after }]
    }
}

/// That an upgrade is configured otherwise, where it is.
pub open spec fn config_diffs(
    before: Seq<(Seq<char>, TomlModel)>,
    after: Seq<(Seq<char>, TomlModel)>,
) -> Seq<Diff> {
    if same_entries(before, after) {
        Seq::empty()
    } else {
        seq![Diff::ConfigChanged]
    }
}

/// What two manifests differ in besides: the runtime, the budget and the configuration.
pub open spec fn other_diffs(installed: Manifest, candidate: Manifest) -> Seq<Diff> {
    type_diffs(installed.plugin_type, candidate.plugin_type) + budget_diffs(
        allowance(installed.budget),
        allowance(candidate.budget),
    ) + config_diffs(
        toml_entry_models(installed.config.entries@),
        toml_entry_models(candidate.config.entries@),
    )
}

/// That an upgrade is not newer, where it is not.
pub open spec fn version_diffs(from: Seq<char>, to: Seq<char>) -> Seq<Diff> {
    if version::newer(to, from) {
        Seq::empty()
    } else {
        seq![Diff::NotNewer { before: from, after: to }]
    }
}

/// That an upgrade evaluates another entry, where it does.
pub open spec fn entry_diffs(before: Seq<char>, after: Seq<char>) -> Seq<Diff> {
    if before == after {
        Seq::empty()
    } else {
        seq![Diff::EntryChanged { before, after }]
    }
}

/// Diffs the declared capabilities, which is where authority actually lives.
fn diff_capabilities(installed: &Manifest, candidate: &Manifest, changes: &mut Vec<Change>)
    requires
        installed.wf(),
        candidate.wf(),
    ensures
        ({
            let list = merge(installed.capabilities.keys(), candidate.capabilities.keys());
            diffs(final(changes)@) == diffs(old(changes)@) + capability_diffs_upto(
                installed.capabilities,
                candidate.capabilities,
                list,
                list.len() as int,
            )
        }),
{
    let list = all_names(&installed.capabilities, &candidate.capabilities);
    let ghost views = text::texts(list@);
    let ghost start = diffs(changes@);
    let n: usize = list.len();
    let mut i: usize = 0;
    proof {
        assert(start + Seq::<Diff>::empty() =~= start);
    }
    while i < n
        invariant
            installed.wf(),
            candidate.wf(),
            n == list.len(),
            i <= n,
            views == text::texts(list@),
            diffs(changes@) == start + capability_diffs_upto(
                installed.capabilities,
                candidate.capabilities,
                views,
                i as int,
            ),
        decreases n - i,
    {
        let name = &list[i];
        let ghost had = diffs(changes@);
        let ghost done = capability_diffs_upto(
            installed.capabilities,
            candidate.capabilities,
            views,
            i as int,
        );
        let ghost here = capability_diffs(
            name@,
            installed.capabilities.at(name@),
            candidate.capabilities.at(name@),
        );
        proof {
            assert(views[i as int] == name@);
        }
        match (
            installed.capabilities.get(name.as_str()),
            candidate.capabilities.get(name.as_str()),
        ) {
            (None, Some(_)) => {
                changes.push(Change::CapabilityAdded { name: name.clone() });
            },
            (Some(_), None) => {
                changes.push(Change::CapabilityRemoved { name: name.clone() });
            },
            (Some(before), Some(after)) => {
                proof {
                    let p = installed.capabilities.place(name@);
                    assert(installed.capabilities@[p].1.wf());
                    let q = candidate.capabilities.place(name@);
                    assert(candidate.capabilities@[q].1.wf());
                }
                let (old_params, old_optional) = split_optional(before);
                let (new_params, new_optional) = split_optional(after);
                let old_values = capability::param_values(&old_params);
                let new_values = capability::param_values(&new_params);
                if !tables_equal(&old_values, &new_values) {
                    changes.push(
                        Change::CapabilityParams {
                            name: name.clone(),
                            before: render(&old_params),
                            after: render(&new_params),
                            narrowed: narrows(&old_params, &new_params),
                        },
                    );
                }
                if old_optional != new_optional {
                    changes.push(
                        Change::CapabilityOptionality {
                            name: name.clone(),
                            before: old_optional,
                            after: new_optional,
                        },
                    );
                }
            },
            (None, None) => {},
        }
        proof {
            assert(diffs(changes@) =~= had + here);
            assert((start + done) + here =~= start + (done + here));
        }
        i = i + 1;
    }
}

fn diff_dependencies(installed: &Manifest, candidate: &Manifest, changes: &mut Vec<Change>)
    requires
        installed.wf(),
        candidate.wf(),
    ensures
        ({
            let list = merge(installed.dependencies.keys(), candidate.dependencies.keys());
            diffs(final(changes)@) == diffs(old(changes)@) + dependency_diffs_upto(
                installed.dependencies,
                candidate.dependencies,
                list,
                list.len() as int,
            )
        }),
{
    let list = all_names(&installed.dependencies, &candidate.dependencies);
    let ghost views = text::texts(list@);
    let ghost start = diffs(changes@);
    let n: usize = list.len();
    let mut i: usize = 0;
    proof {
        assert(start + Seq::<Diff>::empty() =~= start);
    }
    while i < n
        invariant
            installed.wf(),
            candidate.wf(),
            n == list.len(),
            i <= n,
            views == text::texts(list@),
            diffs(changes@) == start + dependency_diffs_upto(
                installed.dependencies,
                candidate.dependencies,
                views,
                i as int,
            ),
        decreases n - i,
    {
        let name = &list[i];
        let ghost had = diffs(changes@);
        let ghost done = dependency_diffs_upto(installed.dependencies, candidate.dependencies, views, i as int);
        proof {
            assert(views[i as int] == name@);
        }
        match (
            installed.dependencies.get(name.as_str()),
            candidate.dependencies.get(name.as_str()),
        ) {
            (None, Some(dependency)) => {
                changes.push(
                    Change::DependencyAdded {
                        name: name.clone(),
                        requirement: dependency.requirement().to_string(),
                    },
                );
            },
            (Some(_), None) => {
                changes.push(Change::DependencyRemoved { name: name.clone() });
            },
            (Some(had), Some(has)) => {
                let asked = had.requirement().to_string();
                let asks = has.requirement().to_string();
                let moved = !text::same(asked.as_str(), asks.as_str());
                if moved || had.is_optional() != has.is_optional() {
                    changes.push(
                        Change::DependencyChanged {
                            name: name.clone(),
                            before: write_dependency(had),
                            after: write_dependency(has),
                        },
                    );
                }
            },
            (None, None) => {},
        }
        proof {
            let now = diffs(changes@);
            if now.len() > had.len() {
                assert(now =~= had.push(now.last()));
                assert((start + done).push(now.last()) =~= start + done.push(now.last()));
            } else {
                assert(now =~= had);
            }
        }
        i = i + 1;
    }
}

fn diff_rocks(installed: &Manifest, candidate: &Manifest, changes: &mut Vec<Change>)
    requires
        installed.wf(),
        candidate.wf(),
    ensures
        ({
            let list = merge(installed.rocks.keys(), candidate.rocks.keys());
            diffs(final(changes)@) == diffs(old(changes)@) + rock_diffs_upto(
                installed.rocks,
                candidate.rocks,
                list,
                list.len() as int,
            )
        }),
{
    let list = all_names(&installed.rocks, &candidate.rocks);
    let ghost views = text::texts(list@);
    let ghost start = diffs(changes@);
    let n: usize = list.len();
    let mut i: usize = 0;
    proof {
        assert(start + Seq::<Diff>::empty() =~= start);
    }
    while i < n
        invariant
            installed.wf(),
            candidate.wf(),
            n == list.len(),
            i <= n,
            views == text::texts(list@),
            diffs(changes@) == start + rock_diffs_upto(
                installed.rocks,
                candidate.rocks,
                views,
                i as int,
            ),
        decreases n - i,
    {
        let name = &list[i];
        let ghost had = diffs(changes@);
        let ghost done = rock_diffs_upto(installed.rocks, candidate.rocks, views, i as int);
        proof {
            assert(views[i as int] == name@);
        }
        match (installed.rocks.get(name.as_str()), candidate.rocks.get(name.as_str())) {
            (None, Some(requirement)) => {
                changes.push(
                    Change::RockAdded { name: name.clone(), requirement: requirement.clone() },
                );
            },
            (Some(_), None) => {
                changes.push(Change::RockRemoved { name: name.clone() });
            },
            (Some(had), Some(has)) => {
                if !text::same(had.as_str(), has.as_str()) {
                    changes.push(
                        Change::RockChanged {
                            name: name.clone(),
                            before: had.clone(),
                            after: has.clone(),
                        },
                    );
                }
            },
            (None, None) => {},
        }
        proof {
            let now = diffs(changes@);
            if now.len() > had.len() {
                assert(now =~= had.push(now.last()));
                assert((start + done).push(now.last()) =~= start + done.push(now.last()));
            } else {
                assert(now =~= had);
            }
        }
        i = i + 1;
    }
}

fn allowed_by(budget: &Option<Budget>) -> (r: Option<u64>)
    ensures
        r == allowance(*budget),
{
    match budget {
        Some(budget) => Some(budget.max_instructions),
        None => None,
    }
}

fn diff_others(installed: &Manifest, candidate: &Manifest, changes: &mut Vec<Change>)
    ensures
        diffs(final(changes)@) == diffs(old(changes)@) + other_diffs(*installed, *candidate),
{
    let ghost start = diffs(changes@);
    if installed.plugin_type != candidate.plugin_type {
        changes.push(
            Change::TypeChanged { before: installed.plugin_type, after: candidate.plugin_type },
        );
    }
    let before = allowed_by(&installed.budget);
    let after = allowed_by(&candidate.budget);
    if before != after {
        changes.push(Change::BudgetChanged { before, after });
    }
    if !tables_equal(&installed.config, &candidate.config) {
        changes.push(Change::ConfigChanged);
    }
    proof {
        assert(diffs(changes@) =~= start + other_diffs(*installed, *candidate));
    }
}

/// Everything that changed between an installed plugin and a candidate upgrade.
#[derive(Debug, PartialEq, Eq)]
pub struct UpgradeReview {
    /// Plugin name, taken from the installed manifest.
    pub name: String,
    /// The installed version.
    pub from: Version,
    /// The candidate version.
    pub to: Version,
    /// Every difference found, in a stable order.
    pub changes: Vec<Change>,
}

/// What a review says, apart from how it is stored.
pub struct ReviewModel {
    pub name: Seq<char>,
    pub from: Seq<char>,
    pub to: Seq<char>,
    pub changes: Seq<Diff>,
}

impl View for UpgradeReview {
    type V = ReviewModel;

    open spec fn view(&self) -> ReviewModel {
        ReviewModel {
            name: self.name@,
            from: self.from@,
            to: self.to@,
            changes: diffs(self.changes@),
        }
    }
}

/// The review of an upgrade from one manifest to another.
pub open spec fn reviewed(installed: Manifest, candidate: Manifest) -> ReviewModel {
    ReviewModel {
        name: installed.name@,
        from: installed.published(),
        to: candidate.published(),
        changes: review(installed, candidate),
    }
}

/// The differences among the first `n` that widen.
pub open spec fn wider_upto(list: Seq<Diff>, n: int) -> Seq<Diff>
    decreases n,
{
    if n <= 0 {
        Seq::empty()
    } else if list[n - 1].is_wider() {
        wider_upto(list, n - 1).push(list[n - 1])
    } else {
        wider_upto(list, n - 1)
    }
}

/// Whether some difference of a list widens.
pub open spec fn some_wider(list: Seq<Diff>) -> bool {
    exists|i: int| 0 <= i < list.len() && (#[trigger] list[i]).is_wider()
}

/// The lines of the first `n` differences.
pub open spec fn lines_upto(list: Seq<Diff>, n: int) -> Seq<char>
    decreases n,
{
    if n <= 0 {
        Seq::empty()
    } else {
        lines_upto(list, n - 1) + "  "@ + list[n - 1].line() + "\n"@
    }
}

/// What is wrong with the version of an upgrade, given how it compares with the installed one:
/// an upgrade goes to a newer version.
pub fn judge_version(from: &Version, to: &Version, order: Order) -> (r: Option<Change>)
    ensures
        match order {
            Order::Greater => r is None,
            _ => r matches Some(change) && change@ == (Diff::NotNewer {
                before: from@,
                after: to@,
            }),
        },
{
    match order {
        Order::Greater => None,
        _ => Some(Change::NotNewer { before: from.clone(), after: to.clone() }),
    }
}

impl UpgradeReview {
    /// How a review is written.
    pub open spec fn written(self) -> Seq<char> {
        self.name@ + " "@ + self.from@ + " -> "@ + self.to@ + "\n"@ + lines_upto(
            diffs(self.changes@),
            self.changes@.len() as int,
        )
    }

    /// Diffs two manifests of the same plugin.
    pub fn between(installed: &Manifest, candidate: &Manifest) -> (r: UpgradeReview)
        requires
            installed.wf(),
            candidate.wf(),
        ensures
            r@ == reviewed(*installed, *candidate),
    {
        let from = installed.effective_version();
        let to = candidate.effective_version();
        let mut changes: Vec<Change> = Vec::new();
        match judge_version(&from, &to, to.order(&from)) {
            Some(change) => {
                changes.push(change);
            },
            None => {},
        }
        proof {
            assert(diffs(changes@) =~= version_diffs(from@, to@));
        }
        if installed.entry != candidate.entry {
            changes.push(
                Change::EntryChanged {
                    before: installed.entry.clone(),
                    after: candidate.entry.clone(),
                },
            );
        }
        proof {
            assert(diffs(changes@) =~= version_diffs(from@, to@) + entry_diffs(
                installed.entry@,
                candidate.entry@,
            ));
        }
        diff_capabilities(installed, candidate, &mut changes);
        diff_dependencies(installed, candidate, &mut changes);
        diff_rocks(installed, candidate, &mut changes);
        diff_others(installed, candidate, &mut changes);
        UpgradeReview { name: installed.name.clone(), from, to, changes }
    }

    /// Records that the upgrade is signed by a different identity. A plugin changing hands
    /// is never routine, so it is reported as a widening.
    pub fn with_signers(self, before: &str, after: &str) -> (r: UpgradeReview)
        ensures
            r.name == self.name,
            r.from == self.from,
            r.to == self.to,
            diffs(r.changes@) == if before@ == after@ {
                diffs(self.changes@)
            } else {
                diffs(self.changes@).push(
                    Diff::SignerChanged { before: before@, after: after@ },
                )
            },
    {
        let UpgradeReview { name, from, to, mut changes } = self;
        if !text::same(before, after) {
            let ghost had = diffs(changes@);
            changes.push(
                Change::SignerChanged { before: before.to_owned(), after: after.to_owned() },
            );
            proof {
                assert(diffs(changes@) =~= had.push(
                    Diff::SignerChanged { before: before@, after: after@ },
                ));
            }
        }
        UpgradeReview { name, from, to, changes }
    }

    /// Whether the two manifests declare exactly the same things.
    pub fn is_empty(&self) -> (r: bool)
        ensures
            r == (self.changes@.len() == 0),
    {
        self.changes.len() == 0
    }

    /// Whether any change grants the plugin reach it did not have. A review that does not
    /// widen can be applied unattended, and one that does needs a person.
    pub fn widens(&self) -> (r: bool)
        ensures
            r == some_wider(diffs(self.changes@)),
    {
        let n: usize = self.changes.len();
        let mut i: usize = 0;
        while i < n
            invariant
                n == self.changes.len(),
                i <= n,
                forall|j: int| 0 <= j < i ==> !(#[trigger] diffs(self.changes@)[j]).is_wider(),
            decreases n - i,
        {
            if self.changes[i].widens() {
                proof {
                    assert(diffs(self.changes@)[i as int].is_wider());
                }
                return true;
            }
            i = i + 1;
        }
        false
    }

    /// Only the changes that widen, for showing someone who has to decide.
    pub fn concerns(&self) -> (r: Vec<&Change>)
        ensures
            r@.map_values(|c: &Change| c@) == wider_upto(
                diffs(self.changes@),
                self.changes@.len() as int,
            ),
    {
        let n: usize = self.changes.len();
        let mut out: Vec<&Change> = Vec::new();
        let mut i: usize = 0;
        proof {
            assert(out@.map_values(|c: &Change| c@) =~= wider_upto(diffs(self.changes@), 0));
        }
        while i < n
            invariant
                n == self.changes.len(),
                i <= n,
                out@.map_values(|c: &Change| c@) == wider_upto(diffs(self.changes@), i as int),
            decreases n - i,
        {
            let ghost had = out@.map_values(|c: &Change| c@);
            if self.changes[i].widens() {
                out.push(&self.changes[i]);
                proof {
                    assert(out@.map_values(|c: &Change| c@) =~= had.push(
                        self.changes@[i as int]@,
                    ));
                }
            }
            i = i + 1;
        }
        out
    }

    /// The review written out.
    pub fn to_string(&self) -> (r: String)
        ensures
            r@ == self.written(),
    {
        let mut out = self.name.clone();
        out.append(" ");
        out.append(self.from.as_str());
        out.append(" -> ");
        out.append(self.to.as_str());
        out.append("\n");
        let ghost head = out@;
        let n: usize = self.changes.len();
        let mut i: usize = 0;
        proof {
            assert(head + Seq::<char>::empty() =~= head);
        }
        while i < n
            invariant
                n == self.changes.len(),
                i <= n,
                out@ == head + lines_upto(diffs(self.changes@), i as int),
            decreases n - i,
        {
            let ghost done = lines_upto(diffs(self.changes@), i as int);
            out.append("  ");
            out.append(self.changes[i].to_string().as_str());
            out.append("\n");
            proof {
                let line = diffs(self.changes@)[i as int].line();
                assert(head + done + "  "@ + line + "\n"@ =~= head + (done + "  "@ + line
                    + "\n"@));
            }
            i = i + 1;
        }
        out
    }
}


/// A merge holds exactly the names of both lists.
pub proof fn merge_holds(a: Seq<Seq<char>>, b: Seq<Seq<char>>, name: Seq<char>)
    ensures
        merge(a, b).contains(name) <==> a.contains(name) || b.contains(name),
    decreases a.len() + b.len(),
{
    if a.len() == 0 {
    } else if b.len() == 0 {
    } else {
        first_or_rest(a, name);
        first_or_rest(b, name);
        if a[0] == b[0] {
            merge_holds(a.drop_first(), b.drop_first(), name);
            led_by(a[0], merge(a.drop_first(), b.drop_first()), name);
        } else if names::before(a[0], b[0]) {
            merge_holds(a.drop_first(), b, name);
            led_by(a[0], merge(a.drop_first(), b), name);
        } else {
            merge_holds(a, b.drop_first(), name);
            led_by(b[0], merge(a, b.drop_first()), name);
        }
    }
}

proof fn first_or_rest(list: Seq<Seq<char>>, name: Seq<char>)
    requires
        list.len() > 0,
    ensures
        list.contains(name) <==> list[0] == name || list.drop_first().contains(name),
{
    let rest = list.drop_first();
    if list.contains(name) {
        let i = choose|i: int| 0 <= i < list.len() && list[i] == name;
        if i > 0 {
            assert(rest[i - 1] == name);
        }
    }
    if rest.contains(name) {
        let i = choose|i: int| 0 <= i < rest.len() && rest[i] == name;
        assert(list[i + 1] == name);
    }
}

proof fn led_by(first: Seq<char>, rest: Seq<Seq<char>>, name: Seq<char>)
    ensures
        (seq![first] + rest).contains(name) <==> first == name || rest.contains(name),
{
    let list = seq![first] + rest;
    first_or_rest(list, name);
    assert(list.drop_first() =~= rest);
}

proof fn wider_in_parts(a: Seq<Diff>, b: Seq<Diff>)
    ensures
        some_wider(a + b) <==> some_wider(a) || some_wider(b),
{
    let all = a + b;
    if some_wider(a) {
        let i = choose|i: int| 0 <= i < a.len() && (#[trigger] a[i]).is_wider();
        assert(all[i].is_wider());
    }
    if some_wider(b) {
        let i = choose|i: int| 0 <= i < b.len() && (#[trigger] b[i]).is_wider();
        assert(all[a.len() + i].is_wider());
    }
    if some_wider(all) {
        let i = choose|i: int| 0 <= i < all.len() && (#[trigger] all[i]).is_wider();
        if i < a.len() {
            assert(a[i].is_wider());
        } else {
            assert(b[i - a.len()].is_wider());
        }
    }
}

proof fn capability_diff_counts(
    before: NameMap<NameMap<Param>>,
    after: NameMap<NameMap<Param>>,
    list: Seq<Seq<char>>,
    n: int,
    k: int,
)
    requires
        0 <= k < n <= list.len(),
    ensures
        some_wider(capability_diffs(list[k], before.at(list[k]), after.at(list[k])))
            ==> some_wider(capability_diffs_upto(before, after, list, n)),
    decreases n,
{
    wider_in_parts(
        capability_diffs_upto(before, after, list, n - 1),
        capability_diffs(list[n - 1], before.at(list[n - 1]), after.at(list[n - 1])),
    );
    if k < n - 1 {
        capability_diff_counts(before, after, list, n - 1, k);
    }
}

proof fn dependency_diff_counts(
    before: NameMap<DependencySpec>,
    after: NameMap<DependencySpec>,
    list: Seq<Seq<char>>,
    n: int,
    k: int,
)
    requires
        0 <= k < n <= list.len(),
        after.at(list[k]) is Some,
        before.at(list[k]) is None,
    ensures
        some_wider(dependency_diffs_upto(before, after, list, n)),
    decreases n,
{
    let done = dependency_diffs_upto(before, after, list, n - 1);
    let here = dependency_diffs_upto(before, after, list, n);
    if k < n - 1 {
        dependency_diff_counts(before, after, list, n - 1, k);
        let i = choose|i: int| 0 <= i < done.len() && (#[trigger] done[i]).is_wider();
        assert(here[i].is_wider());
    } else {
        assert(here[here.len() - 1].is_wider());
    }
}

proof fn rock_diff_counts(
    before: NameMap<String>,
    after: NameMap<String>,
    list: Seq<Seq<char>>,
    n: int,
    k: int,
)
    requires
        0 <= k < n <= list.len(),
        after.at(list[k]) is Some,
        before.at(list[k]) is None,
    ensures
        some_wider(rock_diffs_upto(before, after, list, n)),
    decreases n,
{
    let done = rock_diffs_upto(before, after, list, n - 1);
    let here = rock_diffs_upto(before, after, list, n);
    if k < n - 1 {
        rock_diff_counts(before, after, list, n - 1, k);
        let i = choose|i: int| 0 <= i < done.len() && (#[trigger] done[i]).is_wider();
        assert(here[i].is_wider());
    } else {
        assert(here[here.len() - 1].is_wider());
    }
}

proof fn named<V>(map: NameMap<V>, name: Seq<char>)
    ensures
        map.has(name) <==> map.keys().contains(name),
{
    if map.has(name) {
        assert(map.keys()[map.place(name)] == name);
    }
    if map.keys().contains(name) {
        let i = choose|i: int| 0 <= i < map.keys().len() && map.keys()[i] == name;
        assert(map@[i].0@ == name);
    }
}

/// Whether a capability asks for no more than it did: with the same parameters, or with
/// parameters that were proved to be no wider.
pub open spec fn asks_no_more(before: NameMap<Param>, after: NameMap<Param>) -> bool {
    let old_params = requested(declared(before));
    let new_params = requested(declared(after));
    same_entries(capability::values(old_params), capability::values(new_params)) || narrower(
        old_params,
        new_params,
    )
}

/// Whether an upgrade is newer, evaluates the same entry, and reaches for nothing that the
/// installed version did not: every capability it requests was requested, with no narrower
/// parameters, and every dependency and rock it declares was declared.
pub open spec fn gains_nothing(installed: Manifest, candidate: Manifest) -> bool {
    &&& version::newer(candidate.published(), installed.published())
    &&& installed.entry@ == candidate.entry@
    &&& forall|name: Seq<char>| #[trigger]
        candidate.capabilities.has(name) ==> installed.capabilities.has(name) && asks_no_more(
            installed.capabilities.at(name)->0,
            candidate.capabilities.at(name)->0,
        )
    &&& forall|name: Seq<char>| #[trigger]
        candidate.dependencies.has(name) ==> installed.dependencies.has(name)
    &&& forall|name: Seq<char>| #[trigger]
        candidate.rocks.has(name) ==> installed.rocks.has(name)
}

proof fn no_capability_widens(
    before: NameMap<NameMap<Param>>,
    after: NameMap<NameMap<Param>>,
    list: Seq<Seq<char>>,
    n: int,
)
    requires
        0 <= n <= list.len(),
        forall|name: Seq<char>| #[trigger]
            after.has(name) ==> before.has(name) && asks_no_more(
                before.at(name)->0,
                after.at(name)->0,
            ),
    ensures
        !some_wider(capability_diffs_upto(before, after, list, n)),
    decreases n,
{
    if n > 0 {
        let name = list[n - 1];
        no_capability_widens(before, after, list, n - 1);
        wider_in_parts(
            capability_diffs_upto(before, after, list, n - 1),
            capability_diffs(name, before.at(name), after.at(name)),
        );
        assert(after.at(name) is Some ==> after.has(name));
        assert(before.has(name) ==> before.at(name) is Some);
    }
}

proof fn no_dependency_widens(
    before: NameMap<DependencySpec>,
    after: NameMap<DependencySpec>,
    list: Seq<Seq<char>>,
    n: int,
)
    requires
        0 <= n <= list.len(),
        forall|name: Seq<char>| #[trigger] after.has(name) ==> before.has(name),
    ensures
        !some_wider(dependency_diffs_upto(before, after, list, n)),
    decreases n,
{
    if n > 0 {
        let name = list[n - 1];
        no_dependency_widens(before, after, list, n - 1);
        let less = dependency_diffs_upto(before, after, list, n - 1);
        let here = dependency_diffs_upto(before, after, list, n);
        assert(after.at(name) is Some ==> after.has(name));
        assert(before.has(name) ==> before.at(name) is Some);
        assert forall|i: int| 0 <= i < here.len() implies !(#[trigger] here[i]).is_wider() by {
            if i < less.len() {
                assert(here[i] == less[i]);
            }
        }
    }
}

proof fn no_rock_widens(
    before: NameMap<String>,
    after: NameMap<String>,
    list: Seq<Seq<char>>,
    n: int,
)
    requires
        0 <= n <= list.len(),
        forall|name: Seq<char>| #[trigger] after.has(name) ==> before.has(name),
    ensures
        !some_wider(rock_diffs_upto(before, after, list, n)),
    decreases n,
{
    if n > 0 {
        let name = list[n - 1];
        no_rock_widens(before, after, list, n - 1);
        let less = rock_diffs_upto(before, after, list, n - 1);
        let here = rock_diffs_upto(before, after, list, n);
        assert(after.at(name) is Some ==> after.has(name));
        assert(before.has(name) ==> before.at(name) is Some);
        assert forall|i: int| 0 <= i < here.len() implies !(#[trigger] here[i]).is_wider() by {
            if i < less.len() {
                assert(here[i] == less[i]);
            }
        }
    }
}

/// A review can be applied unattended exactly when the upgrade gains nothing. What else the two
/// versions declare otherwise is shown, and stops nothing: a removal, a changed requirement or
/// optionality, another runtime, budget or configuration.
pub proof fn unattended_upgrade_gains_nothing(installed: Manifest, candidate: Manifest)
    requires
        installed.wf(),
        candidate.wf(),
    ensures
        !some_wider(review(installed, candidate)) <==> gains_nothing(installed, candidate),
{
    let capabilities = merge(installed.capabilities.keys(), candidate.capabilities.keys());
    let dependencies = merge(installed.dependencies.keys(), candidate.dependencies.keys());
    let rocks = merge(installed.rocks.keys(), candidate.rocks.keys());
    let a = version_diffs(installed.published(), candidate.published());
    let b = entry_diffs(installed.entry@, candidate.entry@);
    let c = capability_diffs_upto(
        installed.capabilities,
        candidate.capabilities,
        capabilities,
        capabilities.len() as int,
    );
    let d = dependency_diffs_upto(
        installed.dependencies,
        candidate.dependencies,
        dependencies,
        dependencies.len() as int,
    );
    let e = rock_diffs_upto(installed.rocks, candidate.rocks, rocks, rocks.len() as int);
    let f = other_diffs(installed, candidate);
    wider_in_parts(a, b);
    wider_in_parts(a + b, c);
    wider_in_parts(a + b + c, d);
    wider_in_parts(a + b + c + d, e);
    wider_in_parts(a + b + c + d + e, f);
    assert(!some_wider(f));
    if !some_wider(review(installed, candidate)) {
        if !version::newer(candidate.published(), installed.published()) {
            assert(a[0].is_wider());
        }
        if installed.entry@ != candidate.entry@ {
            assert(b[0].is_wider());
        }
        assert forall|name: Seq<char>| #[trigger]
            candidate.capabilities.has(name) implies installed.capabilities.has(name)
            && asks_no_more(
            installed.capabilities.at(name)->0,
            candidate.capabilities.at(name)->0,
        ) by {
            let k = place_in_merge(installed.capabilities, candidate.capabilities, name);
            capability_diff_counts(
                installed.capabilities,
                candidate.capabilities,
                capabilities,
                capabilities.len() as int,
                k,
            );
            let here = capability_diffs(
                name,
                installed.capabilities.at(name),
                candidate.capabilities.at(name),
            );
            if !installed.capabilities.has(name) {
                assert(here[0].is_wider());
            } else if !asks_no_more(
                installed.capabilities.at(name)->0,
                candidate.capabilities.at(name)->0,
            ) {
                assert(here[0].is_wider());
            }
        }
        assert forall|name: Seq<char>| #[trigger]
            candidate.dependencies.has(name) implies installed.dependencies.has(name) by {
            let k = place_in_merge(installed.dependencies, candidate.dependencies, name);
            if !installed.dependencies.has(name) {
                dependency_diff_counts(
                    installed.dependencies,
                    candidate.dependencies,
                    dependencies,
                    dependencies.len() as int,
                    k,
                );
            }
        }
        assert forall|name: Seq<char>| #[trigger]
            candidate.rocks.has(name) implies installed.rocks.has(name) by {
            let k = place_in_merge(installed.rocks, candidate.rocks, name);
            if !installed.rocks.has(name) {
                rock_diff_counts(
                    installed.rocks,
                    candidate.rocks,
                    rocks,
                    rocks.len() as int,
                    k,
                );
            }
        }
    }
    if gains_nothing(installed, candidate) {
        no_capability_widens(
            installed.capabilities,
            candidate.capabilities,
            capabilities,
            capabilities.len() as int,
        );
        no_dependency_widens(
            installed.dependencies,
            candidate.dependencies,
            dependencies,
            dependencies.len() as int,
        );
        no_rock_widens(installed.rocks, candidate.rocks, rocks, rocks.len() as int);
    }
}

/// Whether two manifests declare the same of one capability.
pub open spec fn same_capability(before: NameMap<Param>, after: NameMap<Param>) -> bool {
    &&& same_entries(
        capability::values(requested(declared(before))),
        capability::values(requested(declared(after))),
    )
    &&& says_optional(declared(before)) == says_optional(declared(after))
}

/// Whether two manifests declare exactly the same things, but for their versions.
pub open spec fn same_declarations(installed: Manifest, candidate: Manifest) -> bool {
    &&& installed.entry@ == candidate.entry@
    &&& installed.plugin_type == candidate.plugin_type
    &&& installed.budget == candidate.budget
    &&& same_entries(
        toml_entry_models(installed.config.entries@),
        toml_entry_models(candidate.config.entries@),
    )
    &&& forall|name: Seq<char>|
        #![trigger installed.capabilities.at(name)]
        #![trigger candidate.capabilities.at(name)]
        match (installed.capabilities.at(name), candidate.capabilities.at(name)) {
            (Some(before), Some(after)) => same_capability(before, after),
            (None, None) => true,
            _ => false,
        }
    &&& forall|name: Seq<char>|
        #![trigger installed.dependencies.at(name)]
        #![trigger candidate.dependencies.at(name)]
        match (installed.dependencies.at(name), candidate.dependencies.at(name)) {
            (Some(before), Some(after)) => same_dependency(before, after),
            (None, None) => true,
            _ => false,
        }
    &&& forall|name: Seq<char>|
        #![trigger installed.rocks.at(name)]
        #![trigger candidate.rocks.at(name)]
        match (installed.rocks.at(name), candidate.rocks.at(name)) {
            (Some(before), Some(after)) => before@ == after@,
            (None, None) => true,
            _ => false,
        }
}

proof fn no_capability_diff(
    before: NameMap<NameMap<Param>>,
    after: NameMap<NameMap<Param>>,
    list: Seq<Seq<char>>,
    n: int,
    k: int,
)
    requires
        0 <= k < n <= list.len(),
        capability_diffs_upto(before, after, list, n).len() == 0,
    ensures
        capability_diffs(list[k], before.at(list[k]), after.at(list[k])).len() == 0,
    decreases n,
{
    if k < n - 1 {
        no_capability_diff(before, after, list, n - 1, k);
    }
}

proof fn no_dependency_diff(
    before: NameMap<DependencySpec>,
    after: NameMap<DependencySpec>,
    list: Seq<Seq<char>>,
    n: int,
    k: int,
)
    requires
        0 <= k < n <= list.len(),
        dependency_diffs_upto(before, after, list, n).len() == 0,
    ensures
        match (before.at(list[k]), after.at(list[k])) {
            (Some(had), Some(has)) => same_dependency(had, has),
            (None, None) => true,
            _ => false,
        },
    decreases n,
{
    if k < n - 1 {
        no_dependency_diff(before, after, list, n - 1, k);
    }
}

proof fn no_rock_diff(
    before: NameMap<String>,
    after: NameMap<String>,
    list: Seq<Seq<char>>,
    n: int,
    k: int,
)
    requires
        0 <= k < n <= list.len(),
        rock_diffs_upto(before, after, list, n).len() == 0,
    ensures
        match (before.at(list[k]), after.at(list[k])) {
            (Some(had), Some(has)) => had@ == has@,
            (None, None) => true,
            _ => false,
        },
    decreases n,
{
    if k < n - 1 {
        no_rock_diff(before, after, list, n - 1, k);
    }
}

/// Where a name that either of two maps has stands among the names of both.
pub proof fn place_in_merge<V, W>(a: NameMap<V>, b: NameMap<W>, name: Seq<char>) -> (k: int)
    requires
        a.at(name) is Some || b.at(name) is Some,
    ensures
        0 <= k < merge(a.keys(), b.keys()).len(),
        merge(a.keys(), b.keys())[k] == name,
{
    let list = merge(a.keys(), b.keys());
    named(a, name);
    named(b, name);
    merge_holds(a.keys(), b.keys(), name);
    choose|k: int| 0 <= k < list.len() && list[k] == name
}

/// An empty review means what it says: the two manifests declare exactly the same things, and
/// the upgrade is newer.
pub proof fn empty_review_declares_the_same(installed: Manifest, candidate: Manifest)
    requires
        installed.wf(),
        candidate.wf(),
        review(installed, candidate).len() == 0,
    ensures
        version::newer(candidate.published(), installed.published()),
        same_declarations(installed, candidate),
{
    let capabilities = merge(installed.capabilities.keys(), candidate.capabilities.keys());
    let dependencies = merge(installed.dependencies.keys(), candidate.dependencies.keys());
    let rocks = merge(installed.rocks.keys(), candidate.rocks.keys());
    assert forall|name: Seq<char>|
        #![trigger installed.capabilities.at(name)]
        #![trigger candidate.capabilities.at(name)]
        match (installed.capabilities.at(name), candidate.capabilities.at(name)) {
            (Some(before), Some(after)) => same_capability(before, after),
            (None, None) => true,
            _ => false,
        } by {
        if installed.capabilities.at(name) is Some || candidate.capabilities.at(name) is Some {
            let k = place_in_merge(installed.capabilities, candidate.capabilities, name);
            no_capability_diff(
                installed.capabilities,
                candidate.capabilities,
                capabilities,
                capabilities.len() as int,
                k,
            );
        }
    }
    assert forall|name: Seq<char>|
        #![trigger installed.dependencies.at(name)]
        #![trigger candidate.dependencies.at(name)]
        match (installed.dependencies.at(name), candidate.dependencies.at(name)) {
            (Some(before), Some(after)) => same_dependency(before, after),
            (None, None) => true,
            _ => false,
        } by {
        if installed.dependencies.at(name) is Some || candidate.dependencies.at(name) is Some {
            let k = place_in_merge(installed.dependencies, candidate.dependencies, name);
            no_dependency_diff(
                installed.dependencies,
                candidate.dependencies,
                dependencies,
                dependencies.len() as int,
                k,
            );
        }
    }
    assert forall|name: Seq<char>|
        #![trigger installed.rocks.at(name)]
        #![trigger candidate.rocks.at(name)]
        match (installed.rocks.at(name), candidate.rocks.at(name)) {
            (Some(before), Some(after)) => before@ == after@,
            (None, None) => true,
            _ => false,
        } by {
        if installed.rocks.at(name) is Some || candidate.rocks.at(name) is Some {
            let k = place_in_merge(installed.rocks, candidate.rocks, name);
            no_rock_diff(installed.rocks, candidate.rocks, rocks, rocks.len() as int, k);
        }
    }
}

/// A downgrade is always a concern.
pub proof fn downgrade_is_a_concern(installed: Manifest, candidate: Manifest)
    requires
        !version::newer(candidate.published(), installed.published()),
    ensures
        some_wider(review(installed, candidate)),
{
    let all = review(installed, candidate);
    assert(all[0] == Diff::NotNewer {
        before: installed.published(),
        after: candidate.published(),
    });
    assert(all[0].is_wider());
}

/// A review that shows a widening shows a concern, and only then.
pub proof fn widening_has_concerns(list: Seq<Diff>)
    ensures
        some_wider(list) <==> wider_upto(list, list.len() as int).len() > 0,
{
    concerns_upto(list, list.len() as int);
}

proof fn concerns_upto(list: Seq<Diff>, n: int)
    requires
        0 <= n <= list.len(),
    ensures
        wider_upto(list, n).len() > 0 <==> exists|i: int|
            0 <= i < n && (#[trigger] list[i]).is_wider(),
    decreases n,
{
    if n > 0 {
        concerns_upto(list, n - 1);
        if list[n - 1].is_wider() {
        } else if exists|i: int| 0 <= i < n && (#[trigger] list[i]).is_wider() {
            let i = choose|i: int| 0 <= i < n && (#[trigger] list[i]).is_wider();
            assert(i < n - 1);
        }
    }
}

} // verus!
