//! What holds of values as they pass between TOML, JSON and foreign callers.

use crate::json::{
    json_entries, json_items, json_of, json_value_entries, json_value_items, value_of_json,
    JsonModel, Number,
};
use crate::value::{
    toml_entries, toml_items, toml_of, value_entries, value_items, value_of, TomlModel, ValueModel,
};
use vstd::prelude::*;
use vstd::string::*;

verus! {

pub proof fn value_items_at(items: Seq<TomlModel>)
    ensures
        value_items(items).len() == items.len(),
        forall|i: int| 0 <= i < items.len() ==> #[trigger] value_items(items)[i] == value_of(items[i]),
    decreases items.len(),
{
    if items.len() > 0 {
        value_items_at(items.drop_last());
        assert forall|i: int| 0 <= i < items.len() implies #[trigger] value_items(items)[i]
            == value_of(items[i]) by {
            if i < items.len() - 1 {
                assert(value_items(items)[i] == value_items(items.drop_last())[i]);
            }
        }
    }
}

pub proof fn value_entries_at(entries: Seq<(Seq<char>, TomlModel)>)
    ensures
        value_entries(entries).len() == entries.len(),
        forall|i: int|
            0 <= i < entries.len() ==> #[trigger] value_entries(entries)[i] == (
                entries[i].0,
                value_of(entries[i].1),
            ),
    decreases entries.len(),
{
    if entries.len() > 0 {
        value_entries_at(entries.drop_last());
        assert forall|i: int| 0 <= i < entries.len() implies #[trigger] value_entries(entries)[i] == (
            entries[i].0,
            value_of(entries[i].1),
        ) by {
            if i < entries.len() - 1 {
                assert(value_entries(entries)[i] == value_entries(entries.drop_last())[i]);
            }
        }
    }
}

/// What TOML holds is read as it is: each scalar as itself, a date and time as its text, and the
/// items of an array and the entries of a table one for one, in their order and under their keys.
pub proof fn toml_is_read_as_it_is(toml: TomlModel)
    ensures
        match toml {
            TomlModel::Text(s) => value_of(toml) == ValueModel::Str(s),
            TomlModel::Datetime(s) => value_of(toml) == ValueModel::Str(s),
            TomlModel::Integer(i) => value_of(toml) == ValueModel::Int(i),
            TomlModel::Float(bits) => value_of(toml) == ValueModel::Float(bits),
            TomlModel::Boolean(b) => value_of(toml) == ValueModel::Bool(b),
            TomlModel::Array(items) => value_of(toml) matches ValueModel::List(read) && read.len()
                == items.len() && forall|i: int|
                0 <= i < items.len() ==> #[trigger] read[i] == value_of(items[i]),
            TomlModel::Table(entries) => value_of(toml) matches ValueModel::Mapping(read)
                && read.len() == entries.len() && forall|i: int|
                0 <= i < entries.len() ==> #[trigger] read[i] == (
                    entries[i].0,
                    value_of(entries[i].1),
                ),
        },
{
    match toml {
        TomlModel::Array(items) => value_items_at(items),
        TomlModel::Table(entries) => value_entries_at(entries),
        _ => {},
    }
}

proof fn toml_items_hold(items: Seq<ValueModel>)
    ensures
        toml_items(items) is Ok <==> forall|i: int|
            0 <= i < items.len() ==> toml_of(#[trigger] items[i]) is Ok,
        toml_items(items) matches Ok(done) ==> done.len() == items.len() && forall|i: int|
            0 <= i < items.len() ==> toml_of(items[i]) == Ok::<TomlModel, Seq<char>>(
                #[trigger] done[i],
            ),
        toml_items(items) matches Err(why) ==> exists|i: int|
            0 <= i < items.len() && toml_of(#[trigger] items[i]) == Err::<TomlModel, Seq<char>>(why),
    decreases items.len(),
{
    if items.len() > 0 {
        let less = items.drop_last();
        toml_items_hold(less);
        let n = items.len() - 1;
        match toml_items(less) {
            Err(why) => {
                let i = choose|i: int|
                    0 <= i < less.len() && toml_of(#[trigger] less[i]) == Err::<TomlModel, Seq<char>>(
                        why,
                    );
                assert(toml_of(items[i]) == Err::<TomlModel, Seq<char>>(why));
            },
            Ok(done) => {
                assert forall|i: int| 0 <= i < n implies toml_of(#[trigger] items[i]) is Ok by {
                    assert(toml_of(less[i]) is Ok);
                }
                match toml_of(items.last()) {
                    Err(why) => {
                        assert(toml_of(items[n]) == Err::<TomlModel, Seq<char>>(why));
                    },
                    Ok(item) => {
                        let all = toml_items(items)->Ok_0;
                        assert forall|i: int| 0 <= i < items.len() implies toml_of(items[i])
                            == Ok::<TomlModel, Seq<char>>(#[trigger] all[i]) by {
                            if i < n {
                                assert(toml_of(less[i]) == Ok::<TomlModel, Seq<char>>(done[i]));
                            }
                        }
                        assert forall|i: int| 0 <= i < items.len() implies toml_of(
                            #[trigger] items[i],
                        ) is Ok by {
                            assert(toml_of(items[i]) == Ok::<TomlModel, Seq<char>>(all[i]));
                        }
                    },
                }
            },
        }
    }
}

proof fn toml_entries_hold(entries: Seq<(Seq<char>, ValueModel)>)
    ensures
        toml_entries(entries) is Ok <==> forall|i: int|
            0 <= i < entries.len() && !((#[trigger] entries[i]).1 is Nil) ==> toml_of(entries[i].1)
                is Ok,
        toml_entries(entries) matches Ok(done) ==> forall|key: Seq<char>, item: TomlModel|
            #[trigger] done.contains((key, item)) <==> exists|i: int|
                0 <= i < entries.len() && (#[trigger] entries[i]).0 == key && !(entries[i].1 is Nil)
                    && toml_of(entries[i].1) == Ok::<TomlModel, Seq<char>>(item),
    decreases entries.len(),
{
    if entries.len() > 0 {
        let less = entries.drop_last();
        let n = entries.len() - 1;
        toml_entries_hold(less);
        match toml_entries(less) {
            Err(_) => {
                let i = choose|i: int|
                    0 <= i < less.len() && !((#[trigger] less[i]).1 is Nil) && !(toml_of(less[i].1)
                        is Ok);
                assert(!(entries[i].1 is Nil));
            },
            Ok(done) => {
                assert forall|i: int| 0 <= i < n && !((#[trigger] entries[i]).1 is Nil) implies toml_of(
                    entries[i].1,
                ) is Ok by {
                    assert(!(less[i].1 is Nil));
                }
                if !(entries.last().1 is Nil) && toml_of(entries.last().1) is Err {
                    assert(!(entries[n].1 is Nil));
                } else {
                    let all = toml_entries(entries)->Ok_0;
                    assert forall|key: Seq<char>, item: TomlModel| #[trigger] all.contains(
                        (key, item),
                    ) <==> exists|i: int|
                        0 <= i < entries.len() && (#[trigger] entries[i]).0 == key && !(
                        entries[i].1 is Nil) && toml_of(entries[i].1) == Ok::<
                            TomlModel,
                            Seq<char>,
                        >(item) by {
                        if all.contains((key, item)) {
                            let k = choose|k: int| 0 <= k < all.len() && all[k] == (key, item);
                            if k < done.len() {
                                assert(done[k] == (key, item));
                                assert(done.contains((key, item)));
                                let i = choose|i: int|
                                    0 <= i < less.len() && (#[trigger] less[i]).0 == key && !(
                                    less[i].1 is Nil) && toml_of(less[i].1) == Ok::<
                                        TomlModel,
                                        Seq<char>,
                                    >(item);
                                assert(entries[i].0 == key);
                            } else {
                                assert(entries[n].0 == key);
                            }
                        }
                        if exists|i: int|
                            0 <= i < entries.len() && (#[trigger] entries[i]).0 == key && !(
                            entries[i].1 is Nil) && toml_of(entries[i].1) == Ok::<
                                TomlModel,
                                Seq<char>,
                            >(item) {
                            let i = choose|i: int|
                                0 <= i < entries.len() && (#[trigger] entries[i]).0 == key && !(
                                entries[i].1 is Nil) && toml_of(entries[i].1) == Ok::<
                                    TomlModel,
                                    Seq<char>,
                                >(item);
                            if i < n {
                                assert(less[i].0 == key);
                                assert(done.contains((key, item)));
                                let k = choose|k: int| 0 <= k < done.len() && done[k] == (key, item);
                                assert(all[k] == (key, item));
                            } else {
                                assert(all[all.len() - 1] == (key, item));
                            }
                        }
                    }
                }
            },
        }
    }
}

/// What TOML can hold is written as it is, and nothing else is written: a `nil` and a function are
/// refused, a list is written item for item where each can be, and a mapping is written entry for
/// entry but for those that are `nil`, where each other can be.
pub proof fn values_are_written_as_they_are(value: ValueModel)
    ensures
        match value {
            ValueModel::Nil => toml_of(value) is Err,
            ValueModel::Function => toml_of(value) is Err,
            ValueModel::Bool(b) => toml_of(value) matches Ok(TomlModel::Boolean(x)) && x == b,
            ValueModel::Int(i) => toml_of(value) matches Ok(TomlModel::Integer(x)) && x == i,
            ValueModel::Float(bits) => toml_of(value) matches Ok(TomlModel::Float(x)) && x == bits,
            ValueModel::Str(s) => toml_of(value) matches Ok(TomlModel::Text(x)) && x == s,
            ValueModel::List(items) => {
                &&& toml_of(value) is Ok <==> forall|i: int|
                    0 <= i < items.len() ==> toml_of(#[trigger] items[i]) is Ok
                &&& toml_of(value) matches Ok(toml) ==> {
                    &&& toml matches TomlModel::Array(done)
                    &&& done.len() == items.len()
                    &&& forall|i: int|
                        0 <= i < items.len() ==> toml_of(items[i]) == Ok::<TomlModel, Seq<char>>(
                            #[trigger] done[i],
                        )
                }
            },
            ValueModel::Mapping(entries) => {
                &&& toml_of(value) is Ok <==> forall|i: int|
                    0 <= i < entries.len() && !((#[trigger] entries[i]).1 is Nil) ==> toml_of(
                        entries[i].1,
                    ) is Ok
                &&& toml_of(value) matches Ok(toml) ==> {
                    &&& toml matches TomlModel::Table(done)
                    &&& forall|key: Seq<char>, item: TomlModel| #[trigger]
                        done.contains((key, item)) <==> exists|i: int|
                            0 <= i < entries.len() && (#[trigger] entries[i]).0 == key && !(
                            entries[i].1 is Nil) && toml_of(entries[i].1) == Ok::<
                                TomlModel,
                                Seq<char>,
                            >(item)
                }
            },
        },
{
    match value {
        ValueModel::List(items) => toml_items_hold(items),
        ValueModel::Mapping(entries) => toml_entries_hold(entries),
        _ => {},
    }
}

proof fn json_items_at(items: Seq<ValueModel>)
    ensures
        json_items(items).len() == items.len(),
        forall|i: int| 0 <= i < items.len() ==> #[trigger] json_items(items)[i] == json_of(items[i]),
    decreases items.len(),
{
    if items.len() > 0 {
        json_items_at(items.drop_last());
        assert forall|i: int| 0 <= i < items.len() implies #[trigger] json_items(items)[i] == json_of(
            items[i],
        ) by {
            if i < items.len() - 1 {
                assert(json_items(items)[i] == json_items(items.drop_last())[i]);
            }
        }
    }
}

proof fn json_entries_at(entries: Seq<(Seq<char>, ValueModel)>)
    ensures
        json_entries(entries).len() == entries.len(),
        forall|i: int|
            0 <= i < entries.len() ==> #[trigger] json_entries(entries)[i] == (
                entries[i].0,
                json_of(entries[i].1),
            ),
    decreases entries.len(),
{
    if entries.len() > 0 {
        json_entries_at(entries.drop_last());
        assert forall|i: int| 0 <= i < entries.len() implies #[trigger] json_entries(entries)[i] == (
            entries[i].0,
            json_of(entries[i].1),
        ) by {
            if i < entries.len() - 1 {
                assert(json_entries(entries)[i] == json_entries(entries.drop_last())[i]);
            }
        }
    }
}

proof fn json_value_items_at(items: Seq<JsonModel>)
    ensures
        json_value_items(items).len() == items.len(),
        forall|i: int|
            0 <= i < items.len() ==> #[trigger] json_value_items(items)[i] == value_of_json(items[i]),
    decreases items.len(),
{
    if items.len() > 0 {
        json_value_items_at(items.drop_last());
        assert forall|i: int| 0 <= i < items.len() implies #[trigger] json_value_items(items)[i]
            == value_of_json(items[i]) by {
            if i < items.len() - 1 {
                assert(json_value_items(items)[i] == json_value_items(items.drop_last())[i]);
            }
        }
    }
}

proof fn json_value_entries_at(entries: Seq<(Seq<char>, JsonModel)>)
    ensures
        json_value_entries(entries).len() == entries.len(),
        forall|i: int|
            0 <= i < entries.len() ==> #[trigger] json_value_entries(entries)[i] == (
                entries[i].0,
                value_of_json(entries[i].1),
            ),
    decreases entries.len(),
{
    if entries.len() > 0 {
        json_value_entries_at(entries.drop_last());
        assert forall|i: int| 0 <= i < entries.len() implies #[trigger] json_value_entries(entries)[i]
            == (entries[i].0, value_of_json(entries[i].1)) by {
            if i < entries.len() - 1 {
                assert(json_value_entries(entries)[i] == json_value_entries(entries.drop_last())[i]);
            }
        }
    }
}

/// A value becomes the JSON it is: each scalar itself, lists item for item and mappings entry for
/// entry. What JSON has no place for becomes null, or zero for a number that is none or infinite.
pub proof fn values_become_the_json_they_are(value: ValueModel)
    ensures
        match value {
            ValueModel::Nil => json_of(value) is Null,
            ValueModel::Function => json_of(value) is Null,
            ValueModel::Bool(b) => json_of(value) == JsonModel::Bool(b),
            ValueModel::Int(i) => json_of(value) == JsonModel::Number(Number::Int(i)),
            ValueModel::Float(bits) => {
                &&& bits as int % 0x8000_0000_0000_0000 < 0x7ff0_0000_0000_0000 ==> json_of(value)
                    == JsonModel::Number(Number::Float(bits))
                &&& bits as int % 0x8000_0000_0000_0000 >= 0x7ff0_0000_0000_0000 ==> json_of(value)
                    == JsonModel::Number(Number::Int(0))
            },
            ValueModel::Str(s) => json_of(value) == JsonModel::Text(s),
            ValueModel::List(items) => json_of(value) matches JsonModel::Array(made) && made.len()
                == items.len() && forall|i: int|
                0 <= i < items.len() ==> #[trigger] made[i] == json_of(items[i]),
            ValueModel::Mapping(entries) => json_of(value) matches JsonModel::Object(made)
                && made.len() == entries.len() && forall|i: int|
                0 <= i < entries.len() ==> #[trigger] made[i] == (
                    entries[i].0,
                    json_of(entries[i].1),
                ),
        },
{
    match value {
        ValueModel::List(items) => json_items_at(items),
        ValueModel::Mapping(entries) => json_entries_at(entries),
        _ => {},
    }
}

/// JSON is read as it is: each scalar itself, arrays item for item and objects entry for entry; a
/// whole number above the signed ones is the double next to it.
pub proof fn json_is_read_as_it_is(json: JsonModel)
    ensures
        match json {
            JsonModel::Null => value_of_json(json) is Nil,
            JsonModel::Bool(b) => value_of_json(json) == ValueModel::Bool(b),
            JsonModel::Number(Number::Int(i)) => value_of_json(json) == ValueModel::Int(i),
            JsonModel::Number(Number::Big { value: _, nearest }) => value_of_json(json)
                == ValueModel::Float(nearest),
            JsonModel::Number(Number::Float(bits)) => value_of_json(json) == ValueModel::Float(bits),
            JsonModel::Text(s) => value_of_json(json) == ValueModel::Str(s),
            JsonModel::Array(items) => value_of_json(json) matches ValueModel::List(read)
                && read.len() == items.len() && forall|i: int|
                0 <= i < items.len() ==> #[trigger] read[i] == value_of_json(items[i]),
            JsonModel::Object(entries) => value_of_json(json) matches ValueModel::Mapping(read)
                && read.len() == entries.len() && forall|i: int|
                0 <= i < entries.len() ==> #[trigger] read[i] == (
                    entries[i].0,
                    value_of_json(entries[i].1),
                ),
        },
{
    match json {
        JsonModel::Array(items) => json_value_items_at(items),
        JsonModel::Object(entries) => json_value_entries_at(entries),
        _ => {},
    }
}

} // verus!
