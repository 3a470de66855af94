//! The one dynamic value type every backend shares, and its conversions.
//!
//! A foreign caller cannot hand over a runtime's own value: it has no host state to make
//! one in. Arguments and results travel as [`Value`]. Capability parameters are TOML on the
//! manifest side, so a policy that narrows a grant has to land back in TOML.
//!
//! A float is carried as the bits of its IEEE 754 double.

use crate::names::NameMap;
use vstd::prelude::*;

verus! {

/// A value crossing the boundary between a plugin and a foreign host.
#[derive(Debug, PartialEq)]
pub enum Value {
    /// Lua `nil`.
    Nil,
    /// Lua `boolean`.
    Bool(bool),
    /// A Lua integer, kept apart from a float because Lua keeps them apart.
    Int(i64),
    /// A Lua float, by its bits.
    Float(u64),
    /// A Lua string.
    Str(String),
    /// A table whose keys are exactly `1..=n`.
    List(Vec<Value>),
    /// Any other table, with keys rendered as strings.
    Mapping(NameMap<Value>),
    /// A Lua function, which only the state that made it can call.
    Function,
}

/// A TOML value.
#[derive(Debug, PartialEq)]
pub enum Toml {
    Text(String),
    Integer(i64),
    /// A float, by its bits.
    Float(u64),
    Boolean(bool),
    /// A date and time, as it is written.
    Datetime(String),
    Array(Vec<Toml>),
    Table(NameMap<Toml>),
}

/// What a value is, apart from how it is stored.
pub enum ValueModel {
    Nil,
    Bool(bool),
    Int(i64),
    Float(u64),
    Str(Seq<char>),
    List(Seq<ValueModel>),
    Mapping(Seq<(Seq<char>, ValueModel)>),
    Function,
}

/// What a TOML value is, apart from how it is stored.
pub enum TomlModel {
    Text(Seq<char>),
    Integer(i64),
    Float(u64),
    Boolean(bool),
    Datetime(Seq<char>),
    Array(Seq<TomlModel>),
    Table(Seq<(Seq<char>, TomlModel)>),
}

impl Value {
    pub open spec fn model(self) -> ValueModel
        decreases self,
    {
        match self {
            Value::Nil => ValueModel::Nil,
            Value::Bool(b) => ValueModel::Bool(b),
            Value::Int(i) => ValueModel::Int(i),
            Value::Float(bits) => ValueModel::Float(bits),
            Value::Str(s) => ValueModel::Str(s@),
            Value::List(items) => ValueModel::List(value_models(items@)),
            Value::Mapping(map) => ValueModel::Mapping(value_entry_models(map.entries@)),
            Value::Function => ValueModel::Function,
        }
    }
}

pub open spec fn value_models(items: Seq<Value>) -> Seq<ValueModel>
    decreases items,
{
    if items.len() == 0 {
        Seq::empty()
    } else {
        value_models(items.drop_last()).push(items.last().model())
    }
}

pub open spec fn value_entry_models(entries: Seq<(String, Value)>) -> Seq<(Seq<char>, ValueModel)>
    decreases entries,
{
    if entries.len() == 0 {
        Seq::empty()
    } else {
        value_entry_models(entries.drop_last()).push((entries.last().0@, entries.last().1.model()))
    }
}

impl Toml {
    pub open spec fn model(self) -> TomlModel
        decreases self,
    {
        match self {
            Toml::Text(s) => TomlModel::Text(s@),
            Toml::Integer(i) => TomlModel::Integer(i),
            Toml::Float(bits) => TomlModel::Float(bits),
            Toml::Boolean(b) => TomlModel::Boolean(b),
            Toml::Datetime(s) => TomlModel::Datetime(s@),
            Toml::Array(items) => TomlModel::Array(toml_models(items@)),
            Toml::Table(table) => TomlModel::Table(toml_entry_models(table.entries@)),
        }
    }
}

pub open spec fn toml_models(items: Seq<Toml>) -> Seq<TomlModel>
    decreases items,
{
    if items.len() == 0 {
        Seq::empty()
    } else {
        toml_models(items.drop_last()).push(items.last().model())
    }
}

pub open spec fn toml_entry_models(entries: Seq<(String, Toml)>) -> Seq<(Seq<char>, TomlModel)>
    decreases entries,
{
    if entries.len() == 0 {
        Seq::empty()
    } else {
        toml_entry_models(entries.drop_last()).push((entries.last().0@, entries.last().1.model()))
    }
}

/// The model of a whole table.
pub open spec fn table_model(table: NameMap<Toml>) -> Seq<(Seq<char>, TomlModel)> {
    toml_entry_models(table.entries@)
}

pub proof fn toml_models_at(items: Seq<Toml>)
    ensures
        toml_models(items).len() == items.len(),
        forall|i: int| 0 <= i < items.len() ==> #[trigger] toml_models(items)[i] == items[i].model(),
    decreases items,
{
    if items.len() > 0 {
        toml_models_at(items.drop_last());
        assert forall|i: int| 0 <= i < items.len() implies #[trigger] toml_models(items)[i]
            == items[i].model() by {
            if i < items.len() - 1 {
                assert(items.drop_last()[i] == items[i]);
                assert(toml_models(items)[i] == toml_models(items.drop_last())[i]);
            }
        }
    }
}

pub proof fn toml_entry_models_at(entries: Seq<(String, Toml)>)
    ensures
        toml_entry_models(entries).len() == entries.len(),
        forall|i: int|
            0 <= i < entries.len() ==> #[trigger] toml_entry_models(entries)[i] == (
                entries[i].0@,
                entries[i].1.model(),
            ),
    decreases entries,
{
    if entries.len() > 0 {
        toml_entry_models_at(entries.drop_last());
        assert forall|i: int| 0 <= i < entries.len() implies #[trigger] toml_entry_models(entries)[i]
            == (entries[i].0@, entries[i].1.model()) by {
            if i < entries.len() - 1 {
                assert(entries.drop_last()[i] == entries[i]);
                assert(toml_entry_models(entries)[i] == toml_entry_models(entries.drop_last())[i]);
            }
        }
    }
}

pub proof fn value_models_at(items: Seq<Value>)
    ensures
        value_models(items).len() == items.len(),
        forall|i: int|
            0 <= i < items.len() ==> #[trigger] value_models(items)[i] == items[i].model(),
    decreases items,
{
    if items.len() > 0 {
        value_models_at(items.drop_last());
        assert forall|i: int| 0 <= i < items.len() implies #[trigger] value_models(items)[i]
            == items[i].model() by {
            if i < items.len() - 1 {
                assert(items.drop_last()[i] == items[i]);
                assert(value_models(items)[i] == value_models(items.drop_last())[i]);
            }
        }
    }
}

pub proof fn value_entry_models_at(entries: Seq<(String, Value)>)
    ensures
        value_entry_models(entries).len() == entries.len(),
        forall|i: int|
            0 <= i < entries.len() ==> #[trigger] value_entry_models(entries)[i] == (
                entries[i].0@,
                entries[i].1.model(),
            ),
    decreases entries,
{
    if entries.len() > 0 {
        value_entry_models_at(entries.drop_last());
        assert forall|i: int| 0 <= i < entries.len() implies #[trigger] value_entry_models(
            entries,
        )[i] == (entries[i].0@, entries[i].1.model()) by {
            if i < entries.len() - 1 {
                assert(entries.drop_last()[i] == entries[i]);
                assert(value_entry_models(entries)[i] == value_entry_models(entries.drop_last())[i]);
            }
        }
    }
}

impl Clone for Value {
    fn clone(&self) -> (r: Self)
        ensures
            r.model() == self.model(),
        decreases self,
    {
        match self {
            Value::Nil => Value::Nil,
            Value::Bool(b) => Value::Bool(*b),
            Value::Int(i) => Value::Int(*i),
            Value::Float(bits) => Value::Float(*bits),
            Value::Str(s) => Value::Str(s.clone()),
            Value::List(items) => {
                let n: usize = items.len();
                let mut out: Vec<Value> = Vec::new();
                let mut i: usize = 0;
                while i < n
                    invariant
                        n == items.len(),
                        i <= n,
                        decreases_to!(self => items),
                        value_models(out@) == value_models(items@.subrange(0, i as int)),
                    decreases n - i,
                {
                    let ghost had = out@;
                    out.push(items[i].clone());
                    proof {
                        assert(items@.subrange(0, i + 1).drop_last() =~= items@.subrange(
                            0,
                            i as int,
                        ));
                        assert(out@.drop_last() =~= had);
                    }
                    i = i + 1;
                }
                proof {
                    assert(items@.subrange(0, n as int) =~= items@);
                }
                Value::List(out)
            },
            Value::Mapping(map) => {
                let n: usize = map.entries.len();
                let mut out: Vec<(String, Value)> = Vec::new();
                let mut i: usize = 0;
                while i < n
                    invariant
                        n == map.entries.len(),
                        i <= n,
                        decreases_to!(self => map.entries),
                        value_entry_models(out@) == value_entry_models(
                            map.entries@.subrange(0, i as int),
                        ),
                    decreases n - i,
                {
                    let ghost had = out@;
                    let entry = &map.entries[i];
                    out.push((entry.0.clone(), entry.1.clone()));
                    proof {
                        assert(map.entries@.subrange(0, i + 1).drop_last()
                            =~= map.entries@.subrange(0, i as int));
                        assert(out@.drop_last() =~= had);
                    }
                    i = i + 1;
                }
                proof {
                    assert(map.entries@.subrange(0, n as int) =~= map.entries@);
                }
                Value::Mapping(NameMap { entries: out })
            },
            Value::Function => Value::Function,
        }
    }
}

impl Clone for Toml {
    fn clone(&self) -> (r: Self)
        ensures
            r.model() == self.model(),
        decreases self,
    {
        match self {
            Toml::Text(s) => Toml::Text(s.clone()),
            Toml::Integer(i) => Toml::Integer(*i),
            Toml::Float(bits) => Toml::Float(*bits),
            Toml::Boolean(b) => Toml::Boolean(*b),
            Toml::Datetime(s) => Toml::Datetime(s.clone()),
            Toml::Array(items) => {
                let n: usize = items.len();
                let mut out: Vec<Toml> = Vec::new();
                let mut i: usize = 0;
                while i < n
                    invariant
                        n == items.len(),
                        i <= n,
                        decreases_to!(self => items),
                        toml_models(out@) == toml_models(items@.subrange(0, i as int)),
                    decreases n - i,
                {
                    let ghost had = out@;
                    out.push(items[i].clone());
                    proof {
                        assert(items@.subrange(0, i + 1).drop_last() =~= items@.subrange(
                            0,
                            i as int,
                        ));
                        assert(out@.drop_last() =~= had);
                    }
                    i = i + 1;
                }
                proof {
                    assert(items@.subrange(0, n as int) =~= items@);
                }
                Toml::Array(out)
            },
            Toml::Table(table) => Toml::Table(copy_table(table)),
        }
    }
}

/// A copy of a table.
pub fn copy_table(table: &NameMap<Toml>) -> (r: NameMap<Toml>)
    ensures
        table_model(r) == table_model(*table),
    decreases table,
{
    let n: usize = table.entries.len();
    let mut out: Vec<(String, Toml)> = Vec::new();
    let mut i: usize = 0;
    while i < n
        invariant
            n == table.entries.len(),
            i <= n,
            toml_entry_models(out@) == toml_entry_models(table.entries@.subrange(0, i as int)),
        decreases n - i,
    {
        let ghost had = out@;
        let entry = &table.entries[i];
        out.push((entry.0.clone(), entry.1.clone()));
        proof {
            assert(table.entries@.subrange(0, i + 1).drop_last() =~= table.entries@.subrange(
                0,
                i as int,
            ));
            assert(out@.drop_last() =~= had);
        }
        i = i + 1;
    }
    proof {
        assert(table.entries@.subrange(0, n as int) =~= table.entries@);
    }
    NameMap { entries: out }
}

/// Why `nil` cannot become TOML.
pub open spec fn no_null() -> Seq<char> {
    "TOML has no null, so a grant cannot contain one"@
}

/// Why a function cannot become TOML.
pub open spec fn no_function() -> Seq<char> {
    "TOML cannot represent a Lua function"@
}

/// The TOML a value is written as, or why it cannot be. A `nil` drops the key it is under.
pub open spec fn toml_of(value: ValueModel) -> Result<TomlModel, Seq<char>>
    decreases value,
{
    match value {
        ValueModel::Nil => Err(no_null()),
        ValueModel::Bool(b) => Ok(TomlModel::Boolean(b)),
        ValueModel::Int(i) => Ok(TomlModel::Integer(i)),
        ValueModel::Float(bits) => Ok(TomlModel::Float(bits)),
        ValueModel::Str(s) => Ok(TomlModel::Text(s)),
        ValueModel::List(items) => match toml_items(items) {
            Ok(done) => Ok(TomlModel::Array(done)),
            Err(why) => Err(why),
        },
        ValueModel::Mapping(entries) => match toml_entries(entries) {
            Ok(done) => Ok(TomlModel::Table(done)),
            Err(why) => Err(why),
        },
        ValueModel::Function => Err(no_function()),
    }
}

pub open spec fn toml_items(items: Seq<ValueModel>) -> Result<Seq<TomlModel>, Seq<char>>
    decreases items,
{
    if items.len() == 0 {
        Ok(Seq::empty())
    } else {
        match toml_items(items.drop_last()) {
            Err(why) => Err(why),
            Ok(done) => match toml_of(items.last()) {
                Ok(item) => Ok(done.push(item)),
                Err(why) => Err(why),
            },
        }
    }
}

pub open spec fn toml_entries(entries: Seq<(Seq<char>, ValueModel)>) -> Result<
    Seq<(Seq<char>, TomlModel)>,
    Seq<char>,
>
    decreases entries,
{
    if entries.len() == 0 {
        Ok(Seq::empty())
    } else {
        match toml_entries(entries.drop_last()) {
            Err(why) => Err(why),
            Ok(done) => if entries.last().1 is Nil {
                Ok(done)
            } else {
                match toml_of(entries.last().1) {
                    Ok(item) => Ok(done.push((entries.last().0, item))),
                    Err(why) => Err(why),
                }
            },
        }
    }
}

/// The value a TOML value reads as. A date and time reads as its text.
pub open spec fn value_of(toml: TomlModel) -> ValueModel
    decreases toml,
{
    match toml {
        TomlModel::Text(s) => ValueModel::Str(s),
        TomlModel::Integer(i) => ValueModel::Int(i),
        TomlModel::Float(bits) => ValueModel::Float(bits),
        TomlModel::Boolean(b) => ValueModel::Bool(b),
        TomlModel::Datetime(s) => ValueModel::Str(s),
        TomlModel::Array(items) => ValueModel::List(value_items(items)),
        TomlModel::Table(entries) => ValueModel::Mapping(value_entries(entries)),
    }
}

pub open spec fn value_items(items: Seq<TomlModel>) -> Seq<ValueModel>
    decreases items,
{
    if items.len() == 0 {
        Seq::empty()
    } else {
        value_items(items.drop_last()).push(value_of(items.last()))
    }
}

pub open spec fn value_entries(entries: Seq<(Seq<char>, TomlModel)>) -> Seq<
    (Seq<char>, ValueModel),
>
    decreases entries,
{
    if entries.len() == 0 {
        Seq::empty()
    } else {
        value_entries(entries.drop_last()).push((entries.last().0, value_of(entries.last().1)))
    }
}

/// The model of the result of a conversion to TOML.
pub open spec fn toml_result(r: Result<Toml, String>) -> Result<TomlModel, Seq<char>> {
    match r {
        Ok(toml) => Ok(toml.model()),
        Err(why) => Err(why@),
    }
}

/// Converts a value into the TOML a grant narrows with.
pub fn value_to_toml(value: &Value) -> (r: Result<Toml, String>)
    ensures
        toml_result(r) == toml_of(value.model()),
    decreases value,
{
    match value {
        Value::Nil => Err("TOML has no null, so a grant cannot contain one".to_owned()),
        Value::Bool(b) => Ok(Toml::Boolean(*b)),
        Value::Int(i) => Ok(Toml::Integer(*i)),
        Value::Float(bits) => Ok(Toml::Float(*bits)),
        Value::Str(s) => Ok(Toml::Text(s.clone())),
        Value::List(items) => {
            let n: usize = items.len();
            let mut out: Vec<Toml> = Vec::new();
            let mut i: usize = 0;
            while i < n
                invariant
                    n == items.len(),
                    i <= n,
                    decreases_to!(value => items),
                    value.model() == ValueModel::List(value_models(items@)),
                    toml_items(value_models(items@.subrange(0, i as int))) == Ok::<
                        Seq<TomlModel>,
                        Seq<char>,
                    >(toml_models(out@)),
                decreases n - i,
            {
                proof {
                    assert(items@.subrange(0, i + 1).drop_last() =~= items@.subrange(0, i as int));
                    let done = value_models(items@.subrange(0, i as int));
                    let here = value_models(items@.subrange(0, i + 1));
                    assert(here.drop_last() =~= done);
                    value_models_at(items@);
                    value_models_prefix(items@, i + 1);
                    error_stays(value_models(items@), i + 1);
                }
                match value_to_toml(&items[i]) {
                    Ok(item) => {
                        let ghost had = out@;
                        out.push(item);
                        proof {
                            assert(out@.drop_last() =~= had);
                        }
                    },
                    Err(why) => {
                        return Err(why);
                    },
                }
                i = i + 1;
            }
            proof {
                assert(items@.subrange(0, n as int) =~= items@);
            }
            Ok(Toml::Array(out))
        },
        Value::Mapping(map) => {
            let n: usize = map.entries.len();
            let mut out: Vec<(String, Toml)> = Vec::new();
            let mut i: usize = 0;
            while i < n
                invariant
                    n == map.entries.len(),
                    i <= n,
                    decreases_to!(value => map.entries),
                    value.model() == ValueModel::Mapping(value_entry_models(map.entries@)),
                    toml_entries(value_entry_models(map.entries@.subrange(0, i as int))) == Ok::<
                        Seq<(Seq<char>, TomlModel)>,
                        Seq<char>,
                    >(toml_entry_models(out@)),
                decreases n - i,
            {
                proof {
                    let all = map.entries@;
                    assert(all.subrange(0, i + 1).drop_last() =~= all.subrange(0, i as int));
                    let done = value_entry_models(all.subrange(0, i as int));
                    let here = value_entry_models(all.subrange(0, i + 1));
                    assert(here.drop_last() =~= done);
                    value_entry_models_at(all);
                    value_entry_models_prefix(all, i + 1);
                    entry_error_stays(value_entry_models(all), i + 1);
                }
                let entry = &map.entries[i];
                match &entry.1 {
                    Value::Nil => {},
                    _ => match value_to_toml(&entry.1) {
                        Ok(item) => {
                            let ghost had = out@;
                            out.push((entry.0.clone(), item));
                            proof {
                                assert(out@.drop_last() =~= had);
                            }
                        },
                        Err(why) => {
                            return Err(why);
                        },
                    },
                }
                i = i + 1;
            }
            proof {
                assert(map.entries@.subrange(0, n as int) =~= map.entries@);
            }
            Ok(Toml::Table(NameMap { entries: out }))
        },
        Value::Function => Err("TOML cannot represent a Lua function".to_owned()),
    }
}

proof fn value_models_prefix(items: Seq<Value>, k: int)
    requires
        0 <= k <= items.len(),
    ensures
        value_models(items.subrange(0, k)) == value_models(items).subrange(0, k),
{
    value_models_at(items);
    value_models_at(items.subrange(0, k));
    assert(value_models(items.subrange(0, k)) =~= value_models(items).subrange(0, k));
}

proof fn value_entry_models_prefix(entries: Seq<(String, Value)>, k: int)
    requires
        0 <= k <= entries.len(),
    ensures
        value_entry_models(entries.subrange(0, k)) == value_entry_models(entries).subrange(0, k),
{
    value_entry_models_at(entries);
    value_entry_models_at(entries.subrange(0, k));
    assert(value_entry_models(entries.subrange(0, k)) =~= value_entry_models(entries).subrange(
        0,
        k,
    ));
}

/// An error in the first items is the error of them all.
proof fn error_stays(items: Seq<ValueModel>, k: int)
    requires
        0 <= k <= items.len(),
    ensures
        toml_items(items.subrange(0, k)) is Err ==> toml_items(items) == toml_items(
            items.subrange(0, k),
        ),
    decreases items.len(),
{
    if k < items.len() {
        error_stays(items.drop_last(), k);
        assert(items.drop_last().subrange(0, k) =~= items.subrange(0, k));
    } else {
        assert(items.subrange(0, k) =~= items);
    }
}

proof fn entry_error_stays(entries: Seq<(Seq<char>, ValueModel)>, k: int)
    requires
        0 <= k <= entries.len(),
    ensures
        toml_entries(entries.subrange(0, k)) is Err ==> toml_entries(entries) == toml_entries(
            entries.subrange(0, k),
        ),
    decreases entries.len(),
{
    if k < entries.len() {
        entry_error_stays(entries.drop_last(), k);
        assert(entries.drop_last().subrange(0, k) =~= entries.subrange(0, k));
    } else {
        assert(entries.subrange(0, k) =~= entries);
    }
}

/// Converts manifest parameters into something a foreign policy can read.
pub fn toml_to_value(value: &Toml) -> (r: Value)
    ensures
        r.model() == value_of(value.model()),
    decreases value,
{
    match value {
        Toml::Text(s) => Value::Str(s.clone()),
        Toml::Integer(i) => Value::Int(*i),
        Toml::Float(bits) => Value::Float(*bits),
        Toml::Boolean(b) => Value::Bool(*b),
        Toml::Datetime(s) => Value::Str(s.clone()),
        Toml::Array(items) => {
            let n: usize = items.len();
            let mut out: Vec<Value> = Vec::new();
            let mut i: usize = 0;
            while i < n
                invariant
                    n == items.len(),
                    i <= n,
                    decreases_to!(value => items),
                    value_models(out@) == value_items(toml_models(items@.subrange(0, i as int))),
                decreases n - i,
            {
                let ghost had = out@;
                out.push(toml_to_value(&items[i]));
                proof {
                    assert(items@.subrange(0, i + 1).drop_last() =~= items@.subrange(0, i as int));
                    assert(toml_models(items@.subrange(0, i + 1)).drop_last() =~= toml_models(
                        items@.subrange(0, i as int),
                    ));
                    assert(out@.drop_last() =~= had);
                }
                i = i + 1;
            }
            proof {
                assert(items@.subrange(0, n as int) =~= items@);
            }
            Value::List(out)
        },
        Toml::Table(table) => Value::Mapping(entries_to_map(&table.entries)),
    }
}

fn entries_to_map(entries: &Vec<(String, Toml)>) -> (r: NameMap<Value>)
    ensures
        value_entry_models(r.entries@) == value_entries(toml_entry_models(entries@)),
    decreases entries,
{
    let n: usize = entries.len();
    let mut out: Vec<(String, Value)> = Vec::new();
    let mut i: usize = 0;
    while i < n
        invariant
            n == entries.len(),
            i <= n,
            value_entry_models(out@) == value_entries(
                toml_entry_models(entries@.subrange(0, i as int)),
            ),
        decreases n - i,
    {
        let ghost had = out@;
        let entry = &entries[i];
        out.push((entry.0.clone(), toml_to_value(&entry.1)));
        proof {
            assert(entries@.subrange(0, i + 1).drop_last() =~= entries@.subrange(0, i as int));
            assert(toml_entry_models(entries@.subrange(0, i + 1)).drop_last()
                =~= toml_entry_models(entries@.subrange(0, i as int)));
            assert(out@.drop_last() =~= had);
        }
        i = i + 1;
    }
    proof {
        assert(entries@.subrange(0, n as int) =~= entries@);
    }
    NameMap { entries: out }
}

/// Converts a whole manifest table, the form a grant's parameters arrive in.
pub fn table_to_map(table: &NameMap<Toml>) -> (r: Value)
    ensures
        r.model() == ValueModel::Mapping(value_entries(table_model(*table))),
{
    Value::Mapping(entries_to_map(&table.entries))
}

/// A value without the entries that TOML drops.
pub open spec fn without_nils(value: ValueModel) -> ValueModel
    decreases value,
{
    match value {
        ValueModel::List(items) => ValueModel::List(items_without_nils(items)),
        ValueModel::Mapping(entries) => ValueModel::Mapping(entries_without_nils(entries)),
        other => other,
    }
}

pub open spec fn items_without_nils(items: Seq<ValueModel>) -> Seq<ValueModel>
    decreases items,
{
    if items.len() == 0 {
        Seq::empty()
    } else {
        items_without_nils(items.drop_last()).push(without_nils(items.last()))
    }
}

pub open spec fn entries_without_nils(entries: Seq<(Seq<char>, ValueModel)>) -> Seq<
    (Seq<char>, ValueModel),
>
    decreases entries,
{
    if entries.len() == 0 {
        Seq::empty()
    } else {
        let done = entries_without_nils(entries.drop_last());
        if entries.last().1 is Nil {
            done
        } else {
            done.push((entries.last().0, without_nils(entries.last().1)))
        }
    }
}

/// What was written as TOML reads back as the value it was, without the `nil` entries.
pub proof fn value_round_trip(value: ValueModel)
    ensures
        toml_of(value) is Ok ==> value_of(toml_of(value)->Ok_0) == without_nils(value),
    decreases value,
{
    match value {
        ValueModel::List(items) => items_round_trip(items),
        ValueModel::Mapping(entries) => entries_round_trip(entries),
        _ => {},
    }
}

proof fn items_round_trip(items: Seq<ValueModel>)
    ensures
        toml_items(items) is Ok ==> value_items(toml_items(items)->Ok_0) == items_without_nils(
            items,
        ),
    decreases items,
{
    if items.len() > 0 {
        items_round_trip(items.drop_last());
        value_round_trip(items.last());
        if toml_items(items) is Ok {
            let done = toml_items(items.drop_last())->Ok_0;
            assert(toml_items(items)->Ok_0.drop_last() =~= done);
        }
    }
}

proof fn entries_round_trip(entries: Seq<(Seq<char>, ValueModel)>)
    ensures
        toml_entries(entries) is Ok ==> value_entries(toml_entries(entries)->Ok_0)
            == entries_without_nils(entries),
    decreases entries,
{
    if entries.len() > 0 {
        entries_round_trip(entries.drop_last());
        value_round_trip(entries.last().1);
        if toml_entries(entries) is Ok && !(entries.last().1 is Nil) {
            let done = toml_entries(entries.drop_last())->Ok_0;
            assert(toml_entries(entries)->Ok_0.drop_last() =~= done);
        }
    }
}

/// A TOML value with each date and time made a string.
pub open spec fn dates_as_text(toml: TomlModel) -> TomlModel
    decreases toml,
{
    match toml {
        TomlModel::Datetime(s) => TomlModel::Text(s),
        TomlModel::Array(items) => TomlModel::Array(item_dates_as_text(items)),
        TomlModel::Table(entries) => TomlModel::Table(entry_dates_as_text(entries)),
        other => other,
    }
}

pub open spec fn item_dates_as_text(items: Seq<TomlModel>) -> Seq<TomlModel>
    decreases items,
{
    if items.len() == 0 {
        Seq::empty()
    } else {
        item_dates_as_text(items.drop_last()).push(dates_as_text(items.last()))
    }
}

pub open spec fn entry_dates_as_text(entries: Seq<(Seq<char>, TomlModel)>) -> Seq<
    (Seq<char>, TomlModel),
>
    decreases entries,
{
    if entries.len() == 0 {
        Seq::empty()
    } else {
        entry_dates_as_text(entries.drop_last()).push(
            (entries.last().0, dates_as_text(entries.last().1)),
        )
    }
}

/// Every TOML value reads as a value that can be written again, as the same TOML but for
/// dates and times, which are then text.
pub proof fn toml_round_trip(toml: TomlModel)
    ensures
        toml_of(value_of(toml)) == Ok::<TomlModel, Seq<char>>(dates_as_text(toml)),
        !(value_of(toml) is Nil),
    decreases toml,
{
    match toml {
        TomlModel::Array(items) => toml_items_round_trip(items),
        TomlModel::Table(entries) => toml_entries_round_trip(entries),
        _ => {},
    }
}

proof fn toml_items_round_trip(items: Seq<TomlModel>)
    ensures
        toml_items(value_items(items)) == Ok::<Seq<TomlModel>, Seq<char>>(
            item_dates_as_text(items),
        ),
    decreases items,
{
    if items.len() > 0 {
        toml_items_round_trip(items.drop_last());
        toml_round_trip(items.last());
        assert(value_items(items).drop_last() =~= value_items(items.drop_last()));
    }
}

proof fn toml_entries_round_trip(entries: Seq<(Seq<char>, TomlModel)>)
    ensures
        toml_entries(value_entries(entries)) == Ok::<Seq<(Seq<char>, TomlModel)>, Seq<char>>(
            entry_dates_as_text(entries),
        ),
    decreases entries,
{
    if entries.len() > 0 {
        toml_entries_round_trip(entries.drop_last());
        toml_round_trip(entries.last().1);
        assert(value_entries(entries).drop_last() =~= value_entries(entries.drop_last()));
    }
}

} // verus!
