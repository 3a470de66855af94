//! The flat interface: values, configuration and reports as JSON.

use crate::config::{opt_list, ConfigModel, HostConfig};
use crate::error::Error;
use crate::host;
use crate::host::{AuditEntry, LoadReport, Outcome, PluginInfo};
use crate::names::NameMap;
use crate::text;
use crate::upgrade::magnitude;
use crate::value::{value_entry_models, value_models, Value, ValueModel};
use vstd::prelude::*;
use vstd::string::*;

verus! {

pub const STANCHION_OK: i32 = 0;

pub const STANCHION_ERR_UNKNOWN_PLUGIN: i32 = 1;

pub const STANCHION_ERR_PLUGIN: i32 = 2;

pub const STANCHION_ERR_LUA: i32 = 3;

pub const STANCHION_ERR_IO: i32 = 4;

pub const STANCHION_ERR_CONFIG: i32 = 5;

pub const STANCHION_ERR_CAPABILITY: i32 = 6;

pub const STANCHION_ERR_REENTRANT: i32 = 7;

pub const STANCHION_ERR_WASM: i32 = 8;

/// The code of an error.
pub open spec fn code_of(error: Error) -> i32 {
    match error {
        Error::UnknownPlugin(_) => STANCHION_ERR_UNKNOWN_PLUGIN,
        Error::Plugin { .. } => STANCHION_ERR_PLUGIN,
        Error::Lua(_) => STANCHION_ERR_LUA,
        Error::Runtime(_) => STANCHION_ERR_LUA,
        Error::Io(_) => STANCHION_ERR_IO,
        Error::Config(_) => STANCHION_ERR_CONFIG,
        Error::Capability { .. } => STANCHION_ERR_CAPABILITY,
        Error::Reentrant => STANCHION_ERR_REENTRANT,
        Error::Wasm(_) => STANCHION_ERR_WASM,
    }
}

/// The code of an error.
pub fn to_ffi_error_code(error: &Error) -> (r: i32)
    ensures
        r == code_of(*error),
{
    match error {
        Error::UnknownPlugin(_) => STANCHION_ERR_UNKNOWN_PLUGIN,
        Error::Plugin { .. } => STANCHION_ERR_PLUGIN,
        Error::Lua(_) => STANCHION_ERR_LUA,
        Error::Runtime(_) => STANCHION_ERR_LUA,
        Error::Io(_) => STANCHION_ERR_IO,
        Error::Config(_) => STANCHION_ERR_CONFIG,
        Error::Capability { .. } => STANCHION_ERR_CAPABILITY,
        Error::Reentrant => STANCHION_ERR_REENTRANT,
        Error::Wasm(_) => STANCHION_ERR_WASM,
    }
}

/// What a code says.
pub open spec fn code_text(code: i32) -> Seq<char> {
    if code == STANCHION_OK {
        "ok"@
    } else if code == STANCHION_ERR_UNKNOWN_PLUGIN {
        "unknown plugin"@
    } else if code == STANCHION_ERR_PLUGIN {
        "plugin error"@
    } else if code == STANCHION_ERR_LUA {
        "Lua error"@
    } else if code == STANCHION_ERR_IO {
        "I/O error"@
    } else if code == STANCHION_ERR_CONFIG {
        "configuration error"@
    } else if code == STANCHION_ERR_CAPABILITY {
        "capability error"@
    } else if code == STANCHION_ERR_REENTRANT {
        "reentrant call detected (would deadlock)"@
    } else if code == STANCHION_ERR_WASM {
        "WASM error"@
    } else {
        "unknown error code"@
    }
}

/// A human-readable description of a code.
pub fn error_string(code: i32) -> (r: &'static str)
    ensures
        r@ == code_text(code),
{
    if code == STANCHION_OK {
        "ok"
    } else if code == STANCHION_ERR_UNKNOWN_PLUGIN {
        "unknown plugin"
    } else if code == STANCHION_ERR_PLUGIN {
        "plugin error"
    } else if code == STANCHION_ERR_LUA {
        "Lua error"
    } else if code == STANCHION_ERR_IO {
        "I/O error"
    } else if code == STANCHION_ERR_CONFIG {
        "configuration error"
    } else if code == STANCHION_ERR_CAPABILITY {
        "capability error"
    } else if code == STANCHION_ERR_REENTRANT {
        "reentrant call detected (would deadlock)"
    } else if code == STANCHION_ERR_WASM {
        "WASM error"
    } else {
        "unknown error code"
    }
}

/// A JSON number. A float is carried as the bits of its double.
#[derive(Debug, Clone, Copy, PartialEq, Eq, Structural)]
pub enum Number {
    /// A number that fits a signed integer.
    Int(i64),
    /// A whole number above those, with the double next to it.
    Big { value: u64, nearest: u64 },
    /// Any other number.
    Float(u64),
}

/// A JSON value.
#[derive(Debug, PartialEq)]
pub enum Json {
    Null,
    Bool(bool),
    Number(Number),
    Text(String),
    Array(Vec<Json>),
    Object(NameMap<Json>),
}

/// What a JSON value is, apart from how it is stored.
pub enum JsonModel {
    Null,
    Bool(bool),
    Number(Number),
    Text(Seq<char>),
    Array(Seq<JsonModel>),
    Object(Seq<(Seq<char>, JsonModel)>),
}

impl Json {
    pub open spec fn model(self) -> JsonModel
        decreases self,
    {
        match self {
            Json::Null => JsonModel::Null,
            Json::Bool(b) => JsonModel::Bool(b),
            Json::Number(n) => JsonModel::Number(n),
            Json::Text(s) => JsonModel::Text(s@),
            Json::Array(items) => JsonModel::Array(json_models(items@)),
            Json::Object(map) => JsonModel::Object(json_entry_models(map.entries@)),
        }
    }
}

pub open spec fn json_models(items: Seq<Json>) -> Seq<JsonModel>
    decreases items,
{
    if items.len() == 0 {
        Seq::empty()
    } else {
        json_models(items.drop_last()).push(items.last().model())
    }
}

pub open spec fn json_entry_models(entries: Seq<(String, Json)>) -> Seq<(Seq<char>, JsonModel)>
    decreases entries,
{
    if entries.len() == 0 {
        Seq::empty()
    } else {
        json_entry_models(entries.drop_last()).push((entries.last().0@, entries.last().1.model()))
    }
}

/// Whether a double is a number that is not infinite.
pub open spec fn is_finite(bits: u64) -> bool {
    magnitude(bits) < 0x7ff0_0000_0000_0000
}

/// The JSON of a value: a number that JSON has no place for is zero, and a function is null.
pub open spec fn json_of(value: ValueModel) -> JsonModel
    decreases value,
{
    match value {
        ValueModel::Nil => JsonModel::Null,
        ValueModel::Bool(b) => JsonModel::Bool(b),
        ValueModel::Int(i) => JsonModel::Number(Number::Int(i)),
        ValueModel::Float(bits) => JsonModel::Number(
            if is_finite(bits) {
                Number::Float(bits)
            } else {
                Number::Int(0)
            },
        ),
        ValueModel::Str(s) => JsonModel::Text(s),
        ValueModel::List(items) => JsonModel::Array(json_items(items)),
        ValueModel::Mapping(entries) => JsonModel::Object(json_entries(entries)),
        ValueModel::Function => JsonModel::Null,
    }
}

pub open spec fn json_items(items: Seq<ValueModel>) -> Seq<JsonModel>
    decreases items,
{
    if items.len() == 0 {
        Seq::empty()
    } else {
        json_items(items.drop_last()).push(json_of(items.last()))
    }
}

pub open spec fn json_entries(entries: Seq<(Seq<char>, ValueModel)>) -> Seq<(Seq<char>, JsonModel)>
    decreases entries,
{
    if entries.len() == 0 {
        Seq::empty()
    } else {
        json_entries(entries.drop_last()).push((entries.last().0, json_of(entries.last().1)))
    }
}

/// The value of JSON: a number that fits no signed integer is a float.
pub open spec fn value_of_json(json: JsonModel) -> ValueModel
    decreases json,
{
    match json {
        JsonModel::Null => ValueModel::Nil,
        JsonModel::Bool(b) => ValueModel::Bool(b),
        JsonModel::Number(Number::Int(i)) => ValueModel::Int(i),
        JsonModel::Number(Number::Big { nearest, .. }) => ValueModel::Float(nearest),
        JsonModel::Number(Number::Float(bits)) => ValueModel::Float(bits),
        JsonModel::Text(s) => ValueModel::Str(s),
        JsonModel::Array(items) => ValueModel::List(json_value_items(items)),
        JsonModel::Object(entries) => ValueModel::Mapping(json_value_entries(entries)),
    }
}

pub open spec fn json_value_items(items: Seq<JsonModel>) -> Seq<ValueModel>
    decreases items,
{
    if items.len() == 0 {
        Seq::empty()
    } else {
        json_value_items(items.drop_last()).push(value_of_json(items.last()))
    }
}

pub open spec fn json_value_entries(entries: Seq<(Seq<char>, JsonModel)>) -> Seq<
    (Seq<char>, ValueModel),
>
    decreases entries,
{
    if entries.len() == 0 {
        Seq::empty()
    } else {
        json_value_entries(entries.drop_last()).push(
            (entries.last().0, value_of_json(entries.last().1)),
        )
    }
}

/// The JSON of a value.
pub fn value_to_json(value: &Value) -> (r: Json)
    ensures
        r.model() == json_of(value.model()),
    decreases value,
{
    match value {
        Value::Nil => Json::Null,
        Value::Bool(b) => Json::Bool(*b),
        Value::Int(i) => Json::Number(Number::Int(*i)),
        Value::Float(bits) => {
            let size: u64 = *bits % 0x8000_0000_0000_0000;
            if size < 0x7ff0_0000_0000_0000 {
                Json::Number(Number::Float(*bits))
            } else {
                Json::Number(Number::Int(0))
            }
        },
        Value::Str(s) => Json::Text(s.clone()),
        Value::List(items) => {
            let n: usize = items.len();
            let mut out: Vec<Json> = Vec::new();
            let mut i: usize = 0;
            while i < n
                invariant
                    n == items.len(),
                    i <= n,
                    decreases_to!(value => items),
                    json_models(out@) == json_items(value_models(items@.subrange(0, i as int))),
                decreases n - i,
            {
                let ghost had = out@;
                out.push(value_to_json(&items[i]));
                proof {
                    assert(items@.subrange(0, i + 1).drop_last() =~= items@.subrange(0, i as int));
                    assert(value_models(items@.subrange(0, i + 1)).drop_last() =~= value_models(
                        items@.subrange(0, i as int),
                    ));
                    assert(out@.drop_last() =~= had);
                }
                i = i + 1;
            }
            proof {
                assert(items@.subrange(0, n as int) =~= items@);
            }
            Json::Array(out)
        },
        Value::Mapping(map) => {
            let n: usize = map.entries.len();
            let mut out: Vec<(String, Json)> = Vec::new();
            let mut i: usize = 0;
            while i < n
                invariant
                    n == map.entries.len(),
                    i <= n,
                    decreases_to!(value => map.entries),
                    json_entry_models(out@) == json_entries(
                        value_entry_models(map.entries@.subrange(0, i as int)),
                    ),
                decreases n - i,
            {
                let ghost had = out@;
                let entry = &map.entries[i];
                out.push((entry.0.clone(), value_to_json(&entry.1)));
                proof {
                    let all = map.entries@;
                    assert(all.subrange(0, i + 1).drop_last() =~= all.subrange(0, i as int));
                    assert(value_entry_models(all.subrange(0, i + 1)).drop_last()
                        =~= value_entry_models(all.subrange(0, i as int)));
                    assert(out@.drop_last() =~= had);
                }
                i = i + 1;
            }
            proof {
                assert(map.entries@.subrange(0, n as int) =~= map.entries@);
            }
            Json::Object(NameMap { entries: out })
        },
        Value::Function => Json::Null,
    }
}

/// The value of JSON.
pub fn json_to_value(json: &Json) -> (r: Value)
    ensures
        r.model() == value_of_json(json.model()),
    decreases json,
{
    match json {
        Json::Null => Value::Nil,
        Json::Bool(b) => Value::Bool(*b),
        Json::Number(number) => match number {
            Number::Int(i) => Value::Int(*i),
            Number::Big { value: _, nearest } => Value::Float(*nearest),
            Number::Float(bits) => Value::Float(*bits),
        },
        Json::Text(s) => Value::Str(s.clone()),
        Json::Array(items) => {
            let n: usize = items.len();
            let mut out: Vec<Value> = Vec::new();
            let mut i: usize = 0;
            while i < n
                invariant
                    n == items.len(),
                    i <= n,
                    decreases_to!(json => items),
                    value_models(out@) == json_value_items(
                        json_models(items@.subrange(0, i as int)),
                    ),
                decreases n - i,
            {
                let ghost had = out@;
                out.push(json_to_value(&items[i]));
                proof {
                    assert(items@.subrange(0, i + 1).drop_last() =~= items@.subrange(0, i as int));
                    assert(json_models(items@.subrange(0, i + 1)).drop_last() =~= json_models(
                        items@.subrange(0, i as int),
                    ));
                    assert(out@.drop_last() =~= had);
                }
                i = i + 1;
            }
            proof {
                assert(items@.subrange(0, n as int) =~= items@);
            }
            Value::List(out)
        },
        Json::Object(map) => {
            let n: usize = map.entries.len();
            let mut out: Vec<(String, Value)> = Vec::new();
            let mut i: usize = 0;
            while i < n
                invariant
                    n == map.entries.len(),
                    i <= n,
                    decreases_to!(json => map.entries),
                    value_entry_models(out@) == json_value_entries(
                        json_entry_models(map.entries@.subrange(0, i as int)),
                    ),
                decreases n - i,
            {
                let ghost had = out@;
                let entry = &map.entries[i];
                out.push((entry.0.clone(), json_to_value(&entry.1)));
                proof {
                    let all = map.entries@;
                    assert(all.subrange(0, i + 1).drop_last() =~= all.subrange(0, i as int));
                    assert(json_entry_models(all.subrange(0, i + 1)).drop_last()
                        =~= json_entry_models(all.subrange(0, i as int)));
                    assert(out@.drop_last() =~= had);
                }
                i = i + 1;
            }
            proof {
                assert(map.entries@.subrange(0, n as int) =~= map.entries@);
            }
            Value::Mapping(NameMap { entries: out })
        },
    }
}

/// Whether a value is one that JSON can hold as it is: no function, and no number that is
/// infinite or none.
pub open spec fn fits_json(value: ValueModel) -> bool
    decreases value,
{
    match value {
        ValueModel::Float(bits) => is_finite(bits),
        ValueModel::List(items) => items_fit_json(items),
        ValueModel::Mapping(entries) => entries_fit_json(entries),
        ValueModel::Function => false,
        _ => true,
    }
}

pub open spec fn items_fit_json(items: Seq<ValueModel>) -> bool
    decreases items,
{
    items.len() == 0 || (items_fit_json(items.drop_last()) && fits_json(items.last()))
}

pub open spec fn entries_fit_json(entries: Seq<(Seq<char>, ValueModel)>) -> bool
    decreases entries,
{
    entries.len() == 0 || (entries_fit_json(entries.drop_last()) && fits_json(entries.last().1))
}

/// What was written as JSON reads back as the value it was, where JSON can hold it.
pub proof fn json_round_trip(value: ValueModel)
    requires
        fits_json(value),
    ensures
        value_of_json(json_of(value)) == value,
    decreases value,
{
    match value {
        ValueModel::List(items) => json_items_round_trip(items),
        ValueModel::Mapping(entries) => json_entries_round_trip(entries),
        _ => {},
    }
}

proof fn json_items_round_trip(items: Seq<ValueModel>)
    requires
        items_fit_json(items),
    ensures
        json_value_items(json_items(items)) == items,
    decreases items,
{
    if items.len() > 0 {
        json_items_round_trip(items.drop_last());
        json_round_trip(items.last());
        assert(json_items(items).drop_last() =~= json_items(items.drop_last()));
        assert(items =~= items.drop_last().push(items.last()));
    } else {
        assert(items =~= Seq::empty());
    }
}

proof fn json_entries_round_trip(entries: Seq<(Seq<char>, ValueModel)>)
    requires
        entries_fit_json(entries),
    ensures
        json_value_entries(json_entries(entries)) == entries,
    decreases entries,
{
    if entries.len() > 0 {
        json_entries_round_trip(entries.drop_last());
        json_round_trip(entries.last().1);
        assert(json_entries(entries).drop_last() =~= json_entries(entries.drop_last()));
        assert(entries =~= entries.drop_last().push(entries.last()));
    } else {
        assert(entries =~= Seq::empty());
    }
}

/// The text of an argument of a foreign call, if one was passed. An argument that is not text
/// comes as what is wrong with it.
pub type Passed = Option<Result<String, String>>;

/// The root a caller passed: nothing where it passed none, or an empty one.
pub fn root_arg(passed: Passed) -> (r: Result<Option<String>, String>)
    ensures
        match passed {
            None => r == Ok::<Option<String>, String>(None),
            Some(Err(error)) => r matches Err(said) && said@ == "plugin root is not valid UTF-8: "@
                + error@,
            Some(Ok(root)) => if root@.len() == 0 {
                r == Ok::<Option<String>, String>(None)
            } else {
                r == Ok::<Option<String>, String>(Some(root))
            },
        },
{
    match passed {
        None => Ok(None),
        Some(Err(error)) => {
            let mut out = "plugin root is not valid UTF-8: ".to_owned();
            out.append(error.as_str());
            Err(out)
        },
        Some(Ok(root)) => {
            if root.as_str().is_empty() {
                Ok(None)
            } else {
                Ok(Some(root))
            }
        },
    }
}

/// What a document argument holds, given how its text parsed: null where none was passed.
pub fn judge_document(passed: Passed, parsed: Result<Json, String>) -> (r: Result<Json, String>)
    ensures
        match passed {
            None => r == Ok::<Json, String>(Json::Null),
            Some(Err(error)) => r matches Err(said) && said@ == "input is not valid UTF-8: "@
                + error@,
            Some(Ok(_)) => match parsed {
                Ok(json) => r == Ok::<Json, String>(json),
                Err(error) => r matches Err(said) && said@ == "invalid JSON: "@ + error@,
            },
        },
{
    match passed {
        None => Ok(Json::Null),
        Some(Err(error)) => {
            let mut out = "input is not valid UTF-8: ".to_owned();
            out.append(error.as_str());
            Err(out)
        },
        Some(Ok(_)) => match parsed {
            Ok(json) => Ok(json),
            Err(error) => {
                let mut out = "invalid JSON: ".to_owned();
                out.append(error.as_str());
                Err(out)
            },
        },
    }
}

/// The arguments of a call: a list, or nothing.
pub fn args_of(json: &Json) -> (r: Result<Vec<Value>, String>)
    ensures
        match json.model() {
            JsonModel::Array(items) => r matches Ok(args) && value_models(args@)
                == json_value_items(items),
            JsonModel::Null => r matches Ok(args) && args@.len() == 0,
            _ => r matches Err(message) && message@ == "args_json must be a JSON array or null"@,
        },
{
    match json {
        Json::Array(_) => match json_to_value(json) {
            Value::List(items) => Ok(items),
            _ => Ok(Vec::new()),
        },
        Json::Null => Ok(Vec::new()),
        _ => Err("args_json must be a JSON array or null".to_owned()),
    }
}

/// The strings among the first `n` items.
pub open spec fn strings_upto(items: Seq<Json>, n: int) -> Seq<Seq<char>>
    decreases n,
{
    if n <= 0 {
        Seq::empty()
    } else {
        match items[n - 1] {
            Json::Text(s) => strings_upto(items, n - 1).push(s@),
            _ => strings_upto(items, n - 1),
        }
    }
}

fn strings_in(items: &Vec<Json>) -> (r: Vec<String>)
    ensures
        text::texts(r@) == strings_upto(items@, items@.len() as int),
{
    let n: usize = items.len();
    let mut out: Vec<String> = Vec::new();
    let mut i: usize = 0;
    proof {
        assert(text::texts(out@) =~= strings_upto(items@, 0));
    }
    while i < n
        invariant
            n == items.len(),
            i <= n,
            text::texts(out@) == strings_upto(items@, i as int),
        decreases n - i,
    {
        let ghost had = text::texts(out@);
        match &items[i] {
            Json::Text(s) => {
                out.push(s.clone());
                proof {
                    assert(text::texts(out@) =~= had.push(s@));
                }
            },
            _ => {},
        }
        i = i + 1;
    }
    out
}

/// The text under a key, if there is one.
pub open spec fn text_at(map: NameMap<Json>, key: Seq<char>) -> Option<Seq<char>> {
    match map.at(key) {
        Some(Json::Text(s)) => Some(s@),
        _ => None,
    }
}

/// The flag under a key, if there is one.
pub open spec fn flag_at(map: NameMap<Json>, key: Seq<char>) -> Option<bool> {
    match map.at(key) {
        Some(Json::Bool(b)) => Some(b),
        _ => None,
    }
}

/// The whole number under a key, if there is one that is not negative.
pub open spec fn count_at(map: NameMap<Json>, key: Seq<char>) -> Option<u64> {
    match map.at(key) {
        Some(Json::Number(Number::Int(i))) => if i >= 0 {
            Some(i as u64)
        } else {
            None
        },
        Some(Json::Number(Number::Big { value, .. })) => Some(value),
        _ => None,
    }
}

/// The strings of the list under a key, if there is one.
pub open spec fn list_at(map: NameMap<Json>, key: Seq<char>) -> Option<Seq<Seq<char>>> {
    match map.at(key) {
        Some(Json::Array(items)) => Some(strings_upto(items@, items@.len() as int)),
        _ => None,
    }
}

fn get_text(map: &NameMap<Json>, key: &str) -> (r: Option<String>)
    requires
        map.wf(),
    ensures
        text::opt(r) == text_at(*map, key@),
{
    match map.get(key) {
        Some(json) => match json {
            Json::Text(s) => Some(s.clone()),
            _ => None,
        },
        None => None,
    }
}

fn get_flag(map: &NameMap<Json>, key: &str) -> (r: Option<bool>)
    requires
        map.wf(),
    ensures
        r == flag_at(*map, key@),
{
    match map.get(key) {
        Some(json) => match json {
            Json::Bool(b) => Some(*b),
            _ => None,
        },
        None => None,
    }
}

fn get_count(map: &NameMap<Json>, key: &str) -> (r: Option<u64>)
    requires
        map.wf(),
    ensures
        r == count_at(*map, key@),
{
    match map.get(key) {
        Some(json) => match json {
            Json::Number(number) => match number {
                Number::Int(i) => if *i >= 0 {
                    Some(*i as u64)
                } else {
                    None
                },
                Number::Big { value, nearest: _ } => Some(*value),
                Number::Float(_) => None,
            },
            _ => None,
        },
        None => None,
    }
}

fn get_list(map: &NameMap<Json>, key: &str) -> (r: Option<Vec<String>>)
    requires
        map.wf(),
    ensures
        opt_list(r) == list_at(*map, key@),
{
    match map.get(key) {
        Some(json) => match json {
            Json::Array(items) => Some(strings_in(items)),
            _ => None,
        },
        None => None,
    }
}

/// A limit that was given: zero means none, since a zero allowance would refuse every plugin.
pub open spec fn limit(given: Option<u64>, default: Option<u64>) -> Option<u64> {
    match given {
        Some(amount) => if amount > 0 {
            Some(amount)
        } else {
            None
        },
        None => default,
    }
}

/// A limit on memory that was given, as a size.
pub open spec fn memory_limit(given: Option<u64>) -> Option<usize> {
    match given {
        Some(bytes) => if bytes > 0 {
            Some(bytes as usize)
        } else {
            None
        },
        None => Some(67_108_864),
    }
}

/// The names of the first `n` capabilities of a list, each once after those that are there.
pub open spec fn answered_upto(items: Seq<Json>, n: int) -> Seq<Seq<char>>
    decreases n,
{
    if n <= 0 {
        Seq::empty()
    } else {
        let done = answered_upto(items, n - 1);
        match items[n - 1] {
            Json::Object(map) => match text_at(map, "name"@) {
                Some(name) => host::with_name(done, name),
                None => done,
            },
            _ => done,
        }
    }
}

/// The names of the capabilities under a key.
pub open spec fn answered_at(map: NameMap<Json>, key: Seq<char>) -> Seq<Seq<char>> {
    match map.at(key) {
        Some(Json::Array(items)) => answered_upto(items@, items@.len() as int),
        _ => Seq::empty(),
    }
}

/// The configuration that an object describes: what it does not say, or says in another type,
/// is as it is by default.
pub open spec fn config_of(map: NameMap<Json>) -> ConfigModel {
    ConfigModel {
        plugins: text_at(map, "plugins"@),
        libs: list_at(map, "libs"@),
        deny: list_at(map, "deny"@),
        memory_limit: memory_limit(count_at(map, "memory_limit"@)),
        instruction_limit: limit(count_at(map, "instruction_limit"@), Some(50_000_000)),
        catch_rust_panics: None,
        shared: flag_at(map, "shared"@) == Some(true),
        allow: match list_at(map, "allow"@) {
            Some(list) => list,
            None => Seq::empty(),
        },
        callbacks: answered_at(map, "capabilities"@),
        required: flag_at(map, "require_signatures"@) == Some(true),
    }
}

/// Whether every object of a value names each key once, in order.
pub open spec fn objects_ordered(items: Seq<Json>) -> bool {
    forall|i: int|
        0 <= i < items.len() ==> match #[trigger] items[i] {
            Json::Object(map) => map.wf(),
            _ => true,
        }
}

/// Whether the object of a configuration names each key once, in order, and so do those in
/// its lists.
pub open spec fn config_ordered(json: Json) -> bool {
    match json {
        Json::Object(map) => map.wf() && match map.at("capabilities"@) {
            Some(Json::Array(items)) => objects_ordered(items@),
            _ => true,
        },
        _ => true,
    }
}

/// The configuration that a JSON value describes.
pub fn config_from_json(json: &Json) -> (r: Result<HostConfig, String>)
    requires
        config_ordered(*json),
    ensures
        match *json {
            Json::Object(map) => r matches Ok(config) && config@ == config_of(map),
            _ => r matches Err(message) && message@ == "config must be a JSON object"@,
        },
{
    let map = match json {
        Json::Object(map) => map,
        _ => {
            return Err("config must be a JSON object".to_owned());
        },
    };
    let mut config: HostConfig = Default::default();
    config.plugins = get_text(map, "plugins");
    config.sandbox.shared = match get_flag(map, "shared") {
        Some(shared) => shared,
        None => false,
    };
    config.sandbox.libs = get_list(map, "libs");
    config.sandbox.deny = get_list(map, "deny");
    match get_count(map, "memory_limit") {
        Some(bytes) => {
            config.sandbox.memory_limit = if bytes > 0 {
                Some(to_size(bytes))
            } else {
                None
            };
        },
        None => {},
    }
    match get_count(map, "instruction_limit") {
        Some(instructions) => {
            config.sandbox.instruction_limit = if instructions > 0 {
                Some(instructions)
            } else {
                None
            };
        },
        None => {},
    }
    match get_list(map, "allow") {
        Some(allow) => {
            config.capabilities.allow = allow;
        },
        None => {},
    }
    config.signatures.required = match get_flag(map, "require_signatures") {
        Some(required) => required,
        None => false,
    };
    let ghost plain = config@;
    match map.get("capabilities") {
        Some(found) => match found {
            Json::Array(items) => {
                let n: usize = items.len();
                let mut i: usize = 0;
                while i < n
                    invariant
                        n == items.len(),
                        i <= n,
                        objects_ordered(items@),
                        config@ == (ConfigModel {
                            callbacks: answered_upto(items@, i as int),
                            ..plain
                        }),
                    decreases n - i,
                {
                    match &items[i] {
                        Json::Object(cap) => {
                            proof {
                                assert(cap.wf()) by {
                                    assert(items@[i as int] == Json::Object(*cap));
                                }
                            }
                            match get_text(cap, "name") {
                                Some(name) => {
                                    host::answer_capability(&mut config, name.as_str());
                                },
                                None => {},
                            }
                        },
                        _ => {},
                    }
                    i = i + 1;
                }
            },
            _ => {},
        },
        None => {},
    }
    Ok(config)
}

/// A size that was given as a number of bytes.
pub fn to_size(bytes: u64) -> (r: usize)
    ensures
        r == bytes as usize,
{
    #[verifier::truncate]
    (bytes as usize)
}

/// Options a binding builds a host from. What is not given is as it is by default; a limit of
/// zero means none.
#[derive(Debug)]
pub struct HostOptions {
    pub plugins: Option<String>,
    pub libs: Option<Vec<String>>,
    pub deny: Option<Vec<String>>,
    pub memory_limit: Option<u64>,
    pub instruction_limit: Option<u64>,
    pub shared: bool,
    pub require_signatures: bool,
    pub allow: Option<Vec<String>>,
}

/// The configuration that options describe.
pub open spec fn options_config(options: HostOptions) -> ConfigModel {
    ConfigModel {
        plugins: text::opt(options.plugins),
        libs: opt_list(options.libs),
        deny: opt_list(options.deny),
        memory_limit: memory_limit(options.memory_limit),
        instruction_limit: limit(options.instruction_limit, Some(50_000_000)),
        catch_rust_panics: None,
        shared: options.shared,
        allow: match opt_list(options.allow) {
            Some(list) => list,
            None => Seq::empty(),
        },
        callbacks: Seq::empty(),
        required: options.require_signatures,
    }
}

/// The configuration that options describe.
pub fn config_from_options(options: HostOptions) -> (r: HostConfig)
    ensures
        r@ == options_config(options),
{
    let mut config: HostConfig = Default::default();
    config.plugins = options.plugins;
    config.sandbox.libs = options.libs;
    config.sandbox.deny = options.deny;
    config.sandbox.shared = options.shared;
    config.signatures.required = options.require_signatures;
    match options.memory_limit {
        Some(bytes) => {
            config.sandbox.memory_limit = if bytes > 0 {
                Some(to_size(bytes))
            } else {
                None
            };
        },
        None => {},
    }
    match options.instruction_limit {
        Some(instructions) => {
            config.sandbox.instruction_limit = if instructions > 0 {
                Some(instructions)
            } else {
                None
            };
        },
        None => {},
    }
    match options.allow {
        Some(allow) => {
            config.capabilities.allow = allow;
        },
        None => {},
    }
    config
}


pub proof fn json_models_at(items: Seq<Json>)
    ensures
        json_models(items).len() == items.len(),
        forall|i: int| 0 <= i < items.len() ==> #[trigger] json_models(items)[i] == items[i].model(),
    decreases items,
{
    if items.len() > 0 {
        json_models_at(items.drop_last());
        assert forall|i: int| 0 <= i < items.len() implies #[trigger] json_models(items)[i]
            == items[i].model() by {
            if i < items.len() - 1 {
                assert(items.drop_last()[i] == items[i]);
                assert(json_models(items)[i] == json_models(items.drop_last())[i]);
            }
        }
    }
}

pub proof fn json_entry_models_at(entries: Seq<(String, Json)>)
    ensures
        json_entry_models(entries).len() == entries.len(),
        forall|i: int|
            0 <= i < entries.len() ==> #[trigger] json_entry_models(entries)[i] == (
                entries[i].0@,
                entries[i].1.model(),
            ),
    decreases entries,
{
    if entries.len() > 0 {
        json_entry_models_at(entries.drop_last());
        assert forall|i: int| 0 <= i < entries.len() implies #[trigger] json_entry_models(entries)[i]
            == (entries[i].0@, entries[i].1.model()) by {
            if i < entries.len() - 1 {
                assert(entries.drop_last()[i] == entries[i]);
                assert(json_entry_models(entries)[i] == json_entry_models(entries.drop_last())[i]);
            }
        }
    }
}

/// Texts as a JSON list.
pub open spec fn texts_json(list: Seq<Seq<char>>) -> JsonModel {
    JsonModel::Array(list.map_values(|s: Seq<char>| JsonModel::Text(s)))
}

/// Strings as a JSON list.
pub fn strings_json(list: &Vec<String>) -> (r: Json)
    ensures
        r.model() == texts_json(text::texts(list@)),
{
    let n: usize = list.len();
    let mut out: Vec<Json> = Vec::new();
    let mut i: usize = 0;
    while i < n
        invariant
            n == list.len(),
            i <= n,
            out@.len() == i,
            forall|k: int|
                0 <= k < i ==> (#[trigger] out@[k]).model() == JsonModel::Text(list@[k]@),
        decreases n - i,
    {
        out.push(Json::Text(list[i].clone()));
        i = i + 1;
    }
    proof {
        json_models_at(out@);
        assert(json_models(out@) =~= text::texts(list@).map_values(
            |s: Seq<char>| JsonModel::Text(s),
        ));
    }
    Json::Array(out)
}

/// A failure as JSON.
pub open spec fn failure_json(failure: host::FailureModel) -> JsonModel {
    JsonModel::Object(
        seq![
            ("plugin"@, JsonModel::Text(failure.0)),
            ("reason"@, JsonModel::Text(failure.1)),
        ],
    )
}

/// The report of a load as JSON.
pub open spec fn report_model(loaded: Seq<Seq<char>>, failures: Seq<host::FailureModel>) -> JsonModel {
    JsonModel::Object(
        seq![
            (
                "failures"@,
                JsonModel::Array(failures.map_values(|f: host::FailureModel| failure_json(f))),
            ),
            ("loaded"@, texts_json(loaded)),
        ],
    )
}

/// The report of a load as JSON.
pub fn report_json(report: &LoadReport) -> (r: Json)
    ensures
        r.model() == report_model(
            text::texts(report.loaded@),
            host::failure_views(report.failures@),
        ),
{
    let n: usize = report.failures.len();
    let ghost views = host::failure_views(report.failures@);
    let mut failures: Vec<Json> = Vec::new();
    let mut i: usize = 0;
    while i < n
        invariant
            n == report.failures.len(),
            i <= n,
            views == host::failure_views(report.failures@),
            failures@.len() == i,
            forall|k: int|
                0 <= k < i ==> (#[trigger] failures@[k]).model() == failure_json(views[k]),
        decreases n - i,
    {
        let failure = &report.failures[i];
        let mut entries: Vec<(String, Json)> = Vec::new();
        entries.push(("plugin".to_owned(), Json::Text(failure.plugin.clone())));
        entries.push(("reason".to_owned(), Json::Text(failure.reason.clone())));
        proof {
            json_entry_models_at(entries@);
            assert(JsonModel::Object(json_entry_models(entries@)) == failure_json(
                views[i as int],
            )) by {
                assert(json_entry_models(entries@) =~= seq![
                    ("plugin"@, JsonModel::Text(failure.plugin@)),
                    ("reason"@, JsonModel::Text(failure.reason@)),
                ]);
            }
        }
        failures.push(Json::Object(NameMap { entries }));
        i = i + 1;
    }
    let mut entries: Vec<(String, Json)> = Vec::new();
    proof {
        json_models_at(failures@);
        assert(json_models(failures@) =~= views.map_values(
            |f: host::FailureModel| failure_json(f),
        ));
    }
    entries.push(("failures".to_owned(), Json::Array(failures)));
    entries.push(("loaded".to_owned(), strings_json(&report.loaded)));
    proof {
        json_entry_models_at(entries@);
        assert(json_entry_models(entries@) =~= seq![
            (
                "failures"@,
                JsonModel::Array(views.map_values(|f: host::FailureModel| failure_json(f))),
            ),
            ("loaded"@, texts_json(text::texts(report.loaded@))),
        ]);
    }
    Json::Object(NameMap { entries })
}

/// A loaded plugin as JSON.
pub open spec fn info_json(info: host::InfoModel) -> JsonModel {
    JsonModel::Object(
        seq![
            ("granted"@, texts_json(info.granted)),
            ("name"@, JsonModel::Text(info.name)),
            ("runtime"@, JsonModel::Text(info.runtime)),
            ("signer"@, JsonModel::Text(info.signer)),
            (
                "version"@,
                match info.version {
                    Some(version) => JsonModel::Text(version),
                    None => JsonModel::Null,
                },
            ),
        ],
    )
}

/// The loaded plugins as JSON.
pub fn list_json(list: &Vec<PluginInfo>) -> (r: Json)
    ensures
        r.model() == JsonModel::Array(
            host::info_views(list@).map_values(|p: host::InfoModel| info_json(p)),
        ),
{
    let n: usize = list.len();
    let ghost views = host::info_views(list@);
    let mut out: Vec<Json> = Vec::new();
    let mut i: usize = 0;
    while i < n
        invariant
            n == list.len(),
            i <= n,
            views == host::info_views(list@),
            out@.len() == i,
            forall|k: int| 0 <= k < i ==> (#[trigger] out@[k]).model() == info_json(views[k]),
        decreases n - i,
    {
        let info = &list[i];
        let version = match &info.version {
            Some(version) => Json::Text(version.clone()),
            None => Json::Null,
        };
        let ghost shown = version.model();
        let mut entries: Vec<(String, Json)> = Vec::new();
        entries.push(("granted".to_owned(), strings_json(&info.granted)));
        entries.push(("name".to_owned(), Json::Text(info.name.clone())));
        entries.push(("runtime".to_owned(), Json::Text(info.runtime.clone())));
        entries.push(("signer".to_owned(), Json::Text(info.signer.clone())));
        entries.push(("version".to_owned(), version));
        proof {
            json_entry_models_at(entries@);
            assert(json_entry_models(entries@) =~= seq![
                ("granted"@, texts_json(text::texts(info.granted@))),
                ("name"@, JsonModel::Text(info.name@)),
                ("runtime"@, JsonModel::Text(info.runtime@)),
                ("signer"@, JsonModel::Text(info.signer@)),
                ("version"@, shown),
            ]);
            assert(views[i as int] == info@);
            assert(json_entry_models(entries@) =~= info_json(info@)->Object_0);
            assert(JsonModel::Object(json_entry_models(entries@)) == info_json(info@));
        }
        out.push(Json::Object(NameMap { entries }));
        i = i + 1;
    }
    proof {
        json_models_at(out@);
        assert(json_models(out@) =~= views.map_values(|p: host::InfoModel| info_json(p)));
    }
    Json::Array(out)
}

/// What a plugin requests as JSON.
pub open spec fn audit_entry_json(entry: AuditEntry) -> JsonModel {
    JsonModel::Object(
        seq![
            ("capabilities"@, texts_json(text::texts(entry.capabilities@))),
            ("plugin"@, JsonModel::Text(entry.plugin@)),
            ("signer"@, JsonModel::Text(entry.signer@)),
        ],
    )
}

/// What every plugin requests as JSON.
pub fn audit_json(list: &Vec<AuditEntry>) -> (r: Json)
    ensures
        r.model() == JsonModel::Array(list@.map_values(|e: AuditEntry| audit_entry_json(e))),
{
    let n: usize = list.len();
    let mut out: Vec<Json> = Vec::new();
    let mut i: usize = 0;
    while i < n
        invariant
            n == list.len(),
            i <= n,
            out@.len() == i,
            forall|k: int|
                0 <= k < i ==> (#[trigger] out@[k]).model() == audit_entry_json(list@[k]),
        decreases n - i,
    {
        let entry = &list[i];
        let mut entries: Vec<(String, Json)> = Vec::new();
        entries.push(("capabilities".to_owned(), strings_json(&entry.capabilities)));
        entries.push(("plugin".to_owned(), Json::Text(entry.plugin.clone())));
        entries.push(("signer".to_owned(), Json::Text(entry.signer.clone())));
        proof {
            json_entry_models_at(entries@);
            assert(json_entry_models(entries@) =~= seq![
                ("capabilities"@, texts_json(text::texts(entry.capabilities@))),
                ("plugin"@, JsonModel::Text(entry.plugin@)),
                ("signer"@, JsonModel::Text(entry.signer@)),
            ]);
        }
        out.push(Json::Object(NameMap { entries }));
        i = i + 1;
    }
    proof {
        json_models_at(out@);
        assert(json_models(out@) =~= list@.map_values(|e: AuditEntry| audit_entry_json(e)));
    }
    Json::Array(out)
}

/// The outcome of a call as JSON: what is absent has no key.
pub open spec fn outcome_json(outcome: Outcome) -> JsonModel {
    let failed = match outcome.error {
        Some(error) => seq![("error"@, JsonModel::Text(error@))],
        None => Seq::empty(),
    };
    let answered = match outcome.value {
        Some(value) => seq![("value"@, json_of(value.model()))],
        None => Seq::empty(),
    };
    JsonModel::Object(failed + seq![("plugin"@, JsonModel::Text(outcome.plugin@))] + answered)
}

/// The outcomes of a dispatch as JSON.
pub fn outcomes_json(list: &Vec<Outcome>) -> (r: Json)
    ensures
        r.model() == JsonModel::Array(list@.map_values(|o: Outcome| outcome_json(o))),
{
    let n: usize = list.len();
    let mut out: Vec<Json> = Vec::new();
    let mut i: usize = 0;
    while i < n
        invariant
            n == list.len(),
            i <= n,
            out@.len() == i,
            forall|k: int| 0 <= k < i ==> (#[trigger] out@[k]).model() == outcome_json(list@[k]),
        decreases n - i,
    {
        let outcome = &list[i];
        let mut entries: Vec<(String, Json)> = Vec::new();
        match &outcome.error {
            Some(error) => {
                entries.push(("error".to_owned(), Json::Text(error.clone())));
            },
            None => {},
        }
        entries.push(("plugin".to_owned(), Json::Text(outcome.plugin.clone())));
        match &outcome.value {
            Some(value) => {
                entries.push(("value".to_owned(), value_to_json(value)));
            },
            None => {},
        }
        proof {
            json_entry_models_at(entries@);
            assert(JsonModel::Object(json_entry_models(entries@)) == outcome_json(*outcome)) by {
                let failed = match outcome.error {
                    Some(error) => seq![("error"@, JsonModel::Text(error@))],
                    None => Seq::empty(),
                };
                let answered = match outcome.value {
                    Some(value) => seq![("value"@, json_of(value.model()))],
                    None => Seq::empty(),
                };
                assert(json_entry_models(entries@) =~= failed + seq![
                    ("plugin"@, JsonModel::Text(outcome.plugin@)),
                ] + answered);
            }
        }
        out.push(Json::Object(NameMap { entries }));
        i = i + 1;
    }
    proof {
        json_models_at(out@);
        assert(json_models(out@) =~= list@.map_values(|o: Outcome| outcome_json(o)));
    }
    Json::Array(out)
}

/// The line that the built-in `log` capability writes: the plugin and the first argument,
/// where that is a text.
pub open spec fn log_text(plugin: Seq<char>, args: Seq<Value>) -> Seq<char> {
    let message = if args.len() > 0 {
        match args[0] {
            Value::Str(s) => s@,
            _ => "(no message)"@,
        }
    } else {
        "(no message)"@
    };
    "["@ + plugin + "] "@ + message
}

/// The line that the built-in `log` capability writes.
pub fn log_line(plugin: &str, args: &Vec<Value>) -> (r: String)
    ensures
        r@ == log_text(plugin@, args@),
{
    let mut out = "[".to_owned();
    out.append(plugin);
    out.append("] ");
    if args.len() > 0 {
        match &args[0] {
            Value::Str(s) => {
                out.append(s.as_str());
            },
            _ => {
                out.append("(no message)");
            },
        }
    } else {
        out.append("(no message)");
    }
    out
}

/// What came of taking a capability away: a code, and a message where it failed.
pub fn revoke_code(plugin: &str, capability: &str, result: Result<bool, Error>) -> (r: (
    i32,
    Option<String>,
))
    ensures
        match result {
            Ok(true) => r.0 == STANCHION_OK && r.1 is None,
            Ok(false) => r.0 == STANCHION_ERR_UNKNOWN_PLUGIN && text::opt(r.1) == Some(
                "`"@ + plugin@ + "` does not hold `"@ + capability@ + "`"@,
            ),
            Err(error) => r.0 == code_of(error) && text::opt(r.1) == Some(error.message()),
        },
{
    match result {
        Ok(held) => {
            if held {
                (STANCHION_OK, None)
            } else {
                let mut out = "`".to_owned();
                out.append(plugin);
                out.append("` does not hold `");
                out.append(capability);
                out.append("`");
                (STANCHION_ERR_UNKNOWN_PLUGIN, Some(out))
            }
        },
        Err(error) => (to_ffi_error_code(&error), Some(error.to_string())),
    }
}

} // verus!
