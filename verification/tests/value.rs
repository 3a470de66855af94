//! Dynamic values and their conversions.

use stanchion::json::{json_to_value, value_to_json, Json, Number};
use stanchion::lua::{abi_to_lua, lua_to_abi, LuaData, LuaKey};
use stanchion::names::NameMap;
use stanchion::value::{table_to_map, toml_to_value, value_to_toml, Toml, Value};

fn mapping(entries: Vec<(&str, Value)>) -> Value {
    let mut map = NameMap::new();
    for (name, value) in entries {
        map.insert(name.to_string(), value);
    }
    Value::Mapping(map)
}

fn float(f: f64) -> Value {
    Value::Float(f.to_bits())
}

#[test]
fn nil_round_trips_through_toml() {
    let err = value_to_toml(&Value::Nil).unwrap_err();
    assert!(err.contains("TOML has no null"));

    let table: NameMap<Toml> = NameMap::new();
    let val = table_to_map(&table);
    assert_eq!(val, Value::Mapping(NameMap::new()));
}

#[test]
fn bool_round_trips_through_toml() {
    for b in [true, false] {
        let val = Value::Bool(b);
        let toml = value_to_toml(&val).unwrap();
        assert_eq!(toml, Toml::Boolean(b));

        let back = toml_to_value(&toml);
        assert_eq!(back, val);
    }
}

#[test]
fn int_round_trips_through_toml() {
    for i in [-9, 0, 7, i64::MAX, i64::MIN] {
        let val = Value::Int(i);
        let toml = value_to_toml(&val).unwrap();
        assert_eq!(toml, Toml::Integer(i));

        let back = toml_to_value(&toml);
        assert_eq!(back, val);
    }
}

#[test]
fn float_round_trips_through_toml() {
    for f in [-9.0, 0.0, 1.5, f64::MAX, f64::MIN] {
        let val = float(f);
        let toml = value_to_toml(&val).unwrap();
        assert_eq!(toml, Toml::Float(f.to_bits()));

        let back = toml_to_value(&toml);
        assert_eq!(back, val);
    }
    let val = float(f64::NAN);
    let toml = value_to_toml(&val).unwrap();
    let back = toml_to_value(&toml);
    assert!(matches!(back, Value::Float(_)));

    let pos_inf = float(f64::INFINITY);
    let neg_inf = float(f64::NEG_INFINITY);
    let pos_toml = value_to_toml(&pos_inf).unwrap();
    let neg_toml = value_to_toml(&neg_inf).unwrap();
    assert!(matches!(pos_toml, Toml::Float(_)));
    assert!(matches!(neg_toml, Toml::Float(_)));
    assert!(matches!(toml_to_value(&pos_toml), Value::Float(_)));
    assert!(matches!(toml_to_value(&neg_toml), Value::Float(_)));
}

#[test]
fn string_round_trips_through_toml() {
    for s in ["", "hello", "🦀", "multi\nline"] {
        let val = Value::Str(s.to_string());
        let toml = value_to_toml(&val).unwrap();
        assert_eq!(toml, Toml::Text(s.to_string()));

        let back = toml_to_value(&toml);
        assert_eq!(back, val);
    }
}

#[test]
fn list_round_trips_through_toml() {
    let val = Value::List(vec![
        Value::Int(1),
        Value::Int(2),
        Value::Str("three".to_string()),
    ]);
    let toml = value_to_toml(&val).unwrap();
    assert_eq!(
        toml,
        Toml::Array(vec![
            Toml::Integer(1),
            Toml::Integer(2),
            Toml::Text("three".to_string()),
        ])
    );

    let back = toml_to_value(&toml);
    assert_eq!(back, val);
}

#[test]
fn map_round_trips_through_toml() {
    let val = mapping(vec![("a", Value::Int(1)), ("b", Value::Bool(true))]);

    let toml = value_to_toml(&val).unwrap();
    let back = toml_to_value(&toml);
    assert_eq!(back, val);
}

#[test]
fn nested_structures_round_trip() {
    let val = mapping(vec![
        ("list", Value::List(vec![Value::Int(1), Value::Int(2)])),
        ("map", mapping(vec![("nested", Value::Int(42))])),
    ]);

    let toml = value_to_toml(&val).unwrap();
    let back = toml_to_value(&toml);
    assert_eq!(back, val);
}

#[test]
fn map_with_nil_drops_key_in_toml() {
    let val = mapping(vec![("keep", Value::Int(1)), ("drop", Value::Nil)]);

    let toml = value_to_toml(&val).unwrap();
    match toml {
        Toml::Table(table) => {
            assert!(table.contains_key("keep"));
            assert!(!table.contains_key("drop"));
        }
        other => panic!("not a table: {other:?}"),
    }
}

#[test]
fn empty_list_is_list_not_map() {
    let val = Value::List(Vec::new());
    let toml = value_to_toml(&val).unwrap();
    assert_eq!(toml, Toml::Array(Vec::new()));
}

#[test]
fn empty_map_is_map_not_list() {
    let val = Value::Mapping(NameMap::new());
    let toml = value_to_toml(&val).unwrap();
    assert_eq!(toml, Toml::Table(NameMap::new()));
}

#[test]
fn toml_datetime_becomes_string() {
    let toml_val = Toml::Datetime("2024-01-15T10:30:00Z".to_string());
    let val = toml_to_value(&toml_val);
    assert!(matches!(val, Value::Str(_)));
}

#[test]
fn a_function_is_not_toml() {
    assert!(value_to_toml(&Value::Function).unwrap_err().contains("function"));
    let inside = mapping(vec![("f", Value::List(vec![Value::Function]))]);
    assert!(value_to_toml(&inside).is_err());
}

#[test]
fn a_map_keeps_one_value_for_each_name_in_order() {
    let mut map = NameMap::new();
    map.insert("b".to_string(), 1);
    map.insert("a".to_string(), 2);
    map.insert("b".to_string(), 3);
    assert_eq!(map.len(), 2);
    assert_eq!(map.entries, vec![("a".to_string(), 2), ("b".to_string(), 3)]);
    assert_eq!(map.remove("a"), Some(2));
    assert_eq!(map.remove("a"), None);
    assert_eq!(map.get("b"), Some(&3));
    assert!(!map.contains_key("a") && !map.is_empty());
}

#[test]
fn what_json_can_hold_reads_back() {
    let val = mapping(vec![
        ("list", Value::List(vec![Value::Int(-1), float(1.5), Value::Nil])),
        ("text", Value::Str("t".to_string())),
        ("flag", Value::Bool(false)),
    ]);
    assert_eq!(json_to_value(&value_to_json(&val)), val);
    assert_eq!(value_to_json(&Value::Int(3)), Json::Number(Number::Int(3)));
    assert_eq!(value_to_json(&float(f64::NAN)), Json::Number(Number::Int(0)));
    assert_eq!(value_to_json(&Value::Function), Json::Null);
    assert_eq!(
        json_to_value(&Json::Number(Number::Big { value: u64::MAX, nearest: 7 })),
        Value::Float(7)
    );
}

#[test]
fn what_lua_can_hold_reads_back() {
    let val = mapping(vec![
        ("list", Value::List(vec![Value::Int(1), Value::Str("x".to_string())])),
        ("map", mapping(vec![("k", float(2.5))])),
    ]);
    let mut cache = Some(9);
    let lua = abi_to_lua(&val, &mut cache).unwrap();
    assert_eq!(lua_to_abi(&lua, &mut cache), val);
    assert_eq!(cache, Some(9));
}

#[test]
fn a_table_is_a_list_when_its_keys_are_one_to_n() {
    let mut cache = None;
    let scattered = LuaData::Table(vec![
        (LuaKey::Integer(2), LuaData::Boolean(true)),
        (LuaKey::Integer(1), LuaData::Nil),
    ]);
    assert_eq!(
        lua_to_abi(&scattered, &mut cache),
        Value::List(vec![Value::Nil, Value::Bool(true)])
    );
    let gap = LuaData::Table(vec![
        (LuaKey::Integer(1), LuaData::Integer(10)),
        (LuaKey::Integer(3), LuaData::Integer(30)),
        (LuaKey::Other("1.5".to_string()), LuaData::Opaque),
        (LuaKey::Text(None), LuaData::Text(None)),
    ]);
    assert_eq!(
        lua_to_abi(&gap, &mut cache),
        mapping(vec![
            ("1", Value::Int(10)),
            ("3", Value::Int(30)),
            ("1.5", Value::Nil),
            ("", Value::Str(String::new())),
        ])
    );
    assert_eq!(lua_to_abi(&LuaData::Table(Vec::new()), &mut cache), mapping(vec![]));
}

#[test]
fn a_function_is_kept_and_handed_back_once() {
    let mut cache = None;
    assert_eq!(
        abi_to_lua(&Value::Function, &mut cache).unwrap_err(),
        "cached function not found"
    );
    let pair = LuaData::Table(vec![
        (LuaKey::Integer(1), LuaData::Function(4)),
        (LuaKey::Integer(2), LuaData::Function(5)),
    ]);
    let read = lua_to_abi(&pair, &mut cache);
    assert_eq!(read, Value::List(vec![Value::Function, Value::Function]));
    assert_eq!(cache, Some(5));
    assert_eq!(
        abi_to_lua(&Value::Function, &mut cache),
        Ok(LuaData::Function(5))
    );
    assert_eq!(cache, None);
    assert!(abi_to_lua(&read, &mut cache).is_err());
}

#[test]
fn a_lua_table_holds_no_nil() {
    let mut cache = None;
    let lua = abi_to_lua(&Value::List(vec![Value::Nil, Value::Int(2)]), &mut cache).unwrap();
    assert_eq!(lua, LuaData::Table(vec![(LuaKey::Integer(2), LuaData::Integer(2))]));
}
