//! JSON documents, from their texts.

use crate::config::HostConfig;
use crate::json::{
    args_of, config_from_json, config_of, config_ordered, json_entry_models, json_entry_models_at,
    json_models, json_models_at, json_value_items, judge_document, Json, JsonModel, Number, Passed,
};
use crate::names::{keys, rising, NameMap};
use crate::value::{value_models, Value};
use vstd::prelude::*;
use vstd::string::*;

verus! {

/// A document that was parsed, as `serde_json` holds it: a `serde_json::Value`, whose name is also
/// that of a type here.
#[verifier::external_body]
pub struct Document {
    inner: serde_json::Value,
}

/// What a document holds.
pub uninterp spec fn held_json(document: Document) -> JsonModel;

/// What `serde_json::from_str` makes of a text: what the document holds, or the text of the
/// error.
pub uninterp spec fn parsed_json(text: Seq<char>) -> Result<JsonModel, Seq<char>>;

/// The view of a document that was parsed.
pub open spec fn document_view(r: Result<Document, String>) -> Result<JsonModel, Seq<char>> {
    match r {
        Ok(document) => Ok(held_json(document)),
        Err(message) => Err(message@),
    }
}

/// Calls `serde_json::from_str`. Claimed: the result is a function of the text.
#[verifier::external_body]
fn parse_text(text: &str) -> (r: Result<Document, String>)
    ensures
        document_view(r) == parsed_json(text@),
{
    match serde_json::from_str(text) {
        Ok(inner) => Ok(Document { inner }),
        Err(error) => Err(error.to_string()),
    }
}

/// A document, opened.
pub enum Opened {
    Null,
    Bool(bool),
    /// A number as a signed and as an unsigned integer, where it is one, and as the bits of a
    /// double.
    Number(Option<i64>, Option<u64>, Option<u64>),
    Text(String),
    Array(Vec<Document>),
    Object(Vec<(String, Document)>),
}

/// A number, given what it is as a signed and as an unsigned integer and as a double.
pub open spec fn number_model(signed: Option<i64>, unsigned: Option<u64>, bits: Option<u64>) -> Number {
    let nearest = match bits {
        Some(bits) => bits,
        None => 0,
    };
    match (signed, unsigned) {
        (Some(value), _) => Number::Int(value),
        (None, Some(value)) => Number::Big { value, nearest },
        (None, None) => Number::Float(nearest),
    }
}

/// What documents hold.
pub open spec fn held_items(items: Seq<Document>) -> Seq<JsonModel> {
    items.map_values(|d: Document| held_json(d))
}

/// What named documents hold.
pub open spec fn held_entries(entries: Seq<(String, Document)>) -> Seq<(Seq<char>, JsonModel)> {
    entries.map_values(|e: (String, Document)| (e.0@, held_json(e.1)))
}

/// Whether a document that was opened holds this.
pub open spec fn opens_to(opened: Opened, model: JsonModel) -> bool {
    match opened {
        Opened::Null => model == JsonModel::Null,
        Opened::Bool(b) => model == JsonModel::Bool(b),
        Opened::Number(signed, unsigned, bits) => model == JsonModel::Number(
            number_model(signed, unsigned, bits),
        ),
        Opened::Text(s) => model == JsonModel::Text(s@),
        Opened::Array(items) => model == JsonModel::Array(held_items(items@)),
        Opened::Object(entries) => model == JsonModel::Object(held_entries(entries@)) && rising(
            keys(entries@),
        ),
    }
}

/// Tells the variants of a `serde_json::Value` apart. Claimed: what it holds is what is handed
/// out, the entries of an object in the order of their names, each name once, as the
/// `std::collections::BTreeMap` behind a `serde_json::Map` has them.
#[verifier::external_body]
fn open(document: Document) -> (r: Opened)
    ensures
        opens_to(r, held_json(document)),
{
    match document.inner {
        serde_json::Value::Null => Opened::Null,
        serde_json::Value::Bool(b) => Opened::Bool(b),
        serde_json::Value::Number(n) => {
            Opened::Number(n.as_i64(), n.as_u64(), n.as_f64().map(|double| double.to_bits()))
        },
        serde_json::Value::String(s) => Opened::Text(s),
        serde_json::Value::Array(items) => {
            Opened::Array(items.into_iter().map(|inner| Document { inner }).collect())
        },
        serde_json::Value::Object(map) => {
            Opened::Object(map.into_iter().map(|(k, inner)| (k, Document { inner })).collect())
        },
    }
}

fn number_of(signed: Option<i64>, unsigned: Option<u64>, bits: Option<u64>) -> (r: Number)
    ensures
        r == number_model(signed, unsigned, bits),
{
    let nearest: u64 = match bits {
        Some(bits) => bits,
        None => 0,
    };
    match (signed, unsigned) {
        (Some(value), _) => Number::Int(value),
        (None, Some(value)) => Number::Big { value, nearest },
        (None, None) => Number::Float(nearest),
    }
}

/// Whether every object of a value names each key once, in order.
pub open spec fn tidy(json: Json) -> bool
    decreases json,
{
    match json {
        Json::Array(items) => all_tidy(items@),
        Json::Object(map) => map.wf() && all_entries_tidy(map.entries@),
        _ => true,
    }
}

pub open spec fn all_tidy(items: Seq<Json>) -> bool
    decreases items,
{
    items.len() == 0 || (all_tidy(items.drop_last()) && tidy(items.last()))
}

pub open spec fn all_entries_tidy(entries: Seq<(String, Json)>) -> bool
    decreases entries,
{
    entries.len() == 0 || (all_entries_tidy(entries.drop_last()) && tidy(entries.last().1))
}

proof fn tidy_at(items: Seq<Json>)
    ensures
        all_tidy(items) <==> forall|i: int| 0 <= i < items.len() ==> tidy(#[trigger] items[i]),
    decreases items.len(),
{
    if items.len() > 0 {
        let less = items.drop_last();
        tidy_at(less);
        if all_tidy(items) {
            assert forall|i: int| 0 <= i < items.len() implies tidy(#[trigger] items[i]) by {
                if i < less.len() {
                    assert(tidy(less[i]));
                }
            }
        }
        if forall|i: int| 0 <= i < items.len() ==> tidy(#[trigger] items[i]) {
            assert forall|i: int| 0 <= i < less.len() implies tidy(#[trigger] less[i]) by {
                assert(tidy(items[i]));
            }
            assert(tidy(items[items.len() - 1]));
        }
    }
}

proof fn entries_tidy_at(entries: Seq<(String, Json)>)
    ensures
        all_entries_tidy(entries) <==> forall|i: int|
            0 <= i < entries.len() ==> tidy((#[trigger] entries[i]).1),
    decreases entries.len(),
{
    if entries.len() > 0 {
        let less = entries.drop_last();
        entries_tidy_at(less);
        if all_entries_tidy(entries) {
            assert forall|i: int| 0 <= i < entries.len() implies tidy((#[trigger] entries[i]).1) by {
                if i < less.len() {
                    assert(tidy(less[i].1));
                }
            }
        }
        if forall|i: int| 0 <= i < entries.len() ==> tidy((#[trigger] entries[i]).1) {
            assert forall|i: int| 0 <= i < less.len() implies tidy((#[trigger] less[i]).1) by {
                assert(tidy(entries[i].1));
            }
            assert(tidy(entries[entries.len() - 1].1));
        }
    }
}

/// Turns a list round.
fn turned<T>(list: Vec<T>) -> (r: Vec<T>)
    ensures
        r@ == list@.reverse(),
{
    let mut rest = list;
    let ghost all = rest@;
    let mut out: Vec<T> = Vec::new();
    while rest.len() > 0
        invariant
            rest@.len() + out@.len() == all.len(),
            rest@ == all.subrange(0, rest@.len() as int),
            forall|k: int| 0 <= k < out@.len() ==> #[trigger] out@[k] == all[all.len() - 1 - k],
        decreases rest.len(),
    {
        let ghost n = rest@.len() as int;
        match rest.pop() {
            Some(item) => {
                proof {
                    assert(item == all[n - 1]);
                    assert(rest@ =~= all.subrange(0, n - 1));
                }
                out.push(item);
            },
            None => {},
        }
    }
    proof {
        assert(out@ =~= all.reverse());
    }
    out
}

/// A document as the library holds it.
fn build(document: Document) -> (r: Json)
    ensures
        r.model() == held_json(document),
        tidy(r),
    decreases held_json(document),
{
    let ghost whole = held_json(document);
    match open(document) {
        Opened::Null => Json::Null,
        Opened::Bool(b) => Json::Bool(b),
        Opened::Number(signed, unsigned, bits) => Json::Number(number_of(signed, unsigned, bits)),
        Opened::Text(s) => Json::Text(s),
        Opened::Array(items) => {
            let ghost models = held_items(items@);
            let ghost n = items@.len() as int;
            let mut rest = turned(items);
            let mut out: Vec<Json> = Vec::new();
            while rest.len() > 0
                invariant
                    whole == JsonModel::Array(models),
                    whole == held_json(document),
                    models.len() == n,
                    out@.len() + rest@.len() == n,
                    forall|k: int|
                        0 <= k < rest@.len() ==> held_json(#[trigger] rest@[k]) == models[n - 1 - k],
                    forall|k: int|
                        0 <= k < out@.len() ==> (#[trigger] out@[k]).model() == models[k] && tidy(
                            out@[k],
                        ),
                decreases rest.len(),
            {
                let ghost left = rest@;
                match rest.pop() {
                    Some(item) => {
                        proof {
                            assert(item == left[left.len() - 1]);
                            assert(held_json(item) == models[n - left.len()]);
                            assert(decreases_to!(whole => whole->Array_0));
                            assert(decreases_to!(models => models[n - left.len()]));
                        }
                        out.push(build(item));
                    },
                    None => {},
                }
            }
            proof {
                json_models_at(out@);
                assert(json_models(out@) =~= models);
                tidy_at(out@);
            }
            Json::Array(out)
        },
        Opened::Object(entries) => {
            let ghost models = held_entries(entries@);
            let ghost names = keys(entries@);
            let ghost n = entries@.len() as int;
            let mut rest = turned(entries);
            let mut out: Vec<(String, Json)> = Vec::new();
            while rest.len() > 0
                invariant
                    whole == JsonModel::Object(models),
                    whole == held_json(document),
                    models.len() == n,
                    names.len() == n,
                    forall|k: int| 0 <= k < n ==> #[trigger] names[k] == models[k].0,
                    out@.len() + rest@.len() == n,
                    forall|k: int|
                        0 <= k < rest@.len() ==> ((#[trigger] rest@[k]).0@, held_json(rest@[k].1))
                            == models[n - 1 - k],
                    forall|k: int|
                        0 <= k < out@.len() ==> ((#[trigger] out@[k]).0@, out@[k].1.model())
                            == models[k] && tidy(out@[k].1),
                decreases rest.len(),
            {
                let ghost left = rest@;
                match rest.pop() {
                    Some((name, item)) => {
                        proof {
                            assert((name, item) == left[left.len() - 1]);
                            assert((name@, held_json(item)) == models[n - left.len()]);
                            assert(decreases_to!(whole => whole->Object_0));
                            assert(decreases_to!(models => models[n - left.len()]));
                            let here = models[n - left.len()];
                            assert(decreases_to!(here => here.1));
                        }
                        let made = build(item);
                        out.push((name, made));
                    },
                    None => {},
                }
            }
            let map = NameMap { entries: out };
            proof {
                json_entry_models_at(map.entries@);
                assert(json_entry_models(map.entries@) =~= models);
                assert(keys(map.entries@) =~= names);
                entries_tidy_at(map.entries@);
            }
            Json::Object(map)
        },
    }
}

proof fn tidy_is_ordered(json: Json)
    requires
        tidy(json),
    ensures
        config_ordered(json),
{
    match json {
        Json::Object(map) => {
            entries_tidy_at(map.entries@);
            match map.at("capabilities"@) {
                Some(Json::Array(items)) => {
                    let p = map.place("capabilities"@);
                    assert(tidy(map.entries@[p].1));
                    tidy_at(items@);
                    assert forall|i: int| 0 <= i < items@.len() implies match #[trigger] items@[i] {
                        Json::Object(inner) => inner.wf(),
                        _ => true,
                    } by {
                        assert(tidy(items@[i]));
                    }
                },
                _ => {},
            }
        },
        _ => {},
    }
}

/// Whether an argument that is a document comes to this: null where none was passed.
pub open spec fn documented(passed: Passed, r: Result<Json, String>) -> bool {
    match passed {
        None => r == Ok::<Json, String>(Json::Null),
        Some(Err(error)) => r matches Err(said) && said@ == "input is not valid UTF-8: "@ + error@,
        Some(Ok(text)) => match parsed_json(text@) {
            Ok(model) => r matches Ok(json) && json.model() == model && tidy(json),
            Err(error) => r matches Err(said) && said@ == "invalid JSON: "@ + error,
        },
    }
}

/// What a document argument holds.
pub fn document(passed: Passed) -> (r: Result<Json, String>)
    ensures
        documented(passed, r),
{
    let parsed = match &passed {
        Some(Ok(text)) => match parse_text(text.as_str()) {
            Ok(document) => Ok(build(document)),
            Err(error) => Err(error),
        },
        _ => Ok(Json::Null),
    };
    judge_document(passed, parsed)
}

/// The arguments of a call, from the document that holds them.
pub fn parse_args_json(passed: Passed) -> (r: Result<Vec<Value>, String>)
    ensures
        exists|found: Result<Json, String>| #[trigger]
            documented(passed, found) && match found {
                Err(said) => r == Err::<Vec<Value>, String>(said),
                Ok(json) => match json.model() {
                    JsonModel::Array(items) => r matches Ok(args) && value_models(args@)
                        == json_value_items(items),
                    JsonModel::Null => r matches Ok(args) && args@.len() == 0,
                    _ => r matches Err(message) && message@
                        == "args_json must be a JSON array or null"@,
                },
            },
{
    let found = document(passed);
    let ghost found_ = found;
    proof {
        assert(documented(passed, found_));
    }
    match found {
        Err(said) => Err(said),
        Ok(json) => args_of(&json),
    }
}

/// The configuration of a host, from the document that holds it.
pub fn init_config(passed: Passed) -> (r: Result<HostConfig, String>)
    ensures
        exists|found: Result<Json, String>| #[trigger]
            documented(passed, found) && match found {
                Err(said) => r == Err::<HostConfig, String>(said),
                Ok(Json::Object(map)) => r matches Ok(config) && config@ == config_of(map),
                Ok(_) => r matches Err(message) && message@ == "config must be a JSON object"@,
            },
{
    let found = document(passed);
    let ghost found_ = found;
    proof {
        assert(documented(passed, found_));
    }
    match found {
        Err(said) => Err(said),
        Ok(json) => {
            proof {
                if tidy(json) {
                    tidy_is_ordered(json);
                }
            }
            config_from_json(&json)
        },
    }
}

} // verus!
