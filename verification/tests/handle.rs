//! Wrapping Lua objects, and what they must offer.

use mlua::{Lua, Value as LuaValue};
use stanchion::handle::{
    expect_handle, expect_table, require_functions, require_handle_functions, Candidate,
    LuaHandle, Lookup, Mismatch, Refusal,
};

type Handle = LuaHandle<mlua::Table, mlua::AnyUserData>;

fn kind_of(value: &LuaValue) -> &'static str {
    match value {
        LuaValue::Nil => "nil",
        LuaValue::Boolean(_) => "boolean",
        LuaValue::Integer(_) => "integer",
        LuaValue::Number(_) => "number",
        LuaValue::String(_) => "string",
        _ => "other",
    }
}

fn candidate(value: LuaValue) -> Candidate<mlua::Table, mlua::AnyUserData> {
    match value {
        LuaValue::Table(table) => Candidate::Table(table),
        LuaValue::UserData(data) => Candidate::UserData(data),
        other => Candidate::Other(kind_of(&other).to_string()),
    }
}

fn look(table: &mlua::Table, name: &str) -> Lookup {
    match table.get::<LuaValue>(name) {
        Ok(LuaValue::Function(_)) => Lookup::Function,
        Ok(LuaValue::Nil) => Lookup::Nil,
        Ok(other) => Lookup::Other(kind_of(&other).to_string()),
        Err(err) => Lookup::Failed(err.to_string()),
    }
}

#[test]
fn table_handle_type_name() {
    let lua = Lua::new();
    let handle: Handle = LuaHandle::Table(lua.create_table().unwrap());
    assert_eq!(handle.kind(), "table");
}

#[test]
fn as_table_returns_some_for_table() {
    let lua = Lua::new();
    let handle: Handle = LuaHandle::Table(lua.create_table().unwrap());
    assert!(handle.as_table().is_some());
}

#[test]
fn as_userdata_returns_none_for_table() {
    let lua = Lua::new();
    let handle: Handle = LuaHandle::Table(lua.create_table().unwrap());
    assert!(handle.as_userdata().is_none());
}

#[test]
fn handle_is_clone() {
    let lua = Lua::new();
    let table = lua.create_table().unwrap();
    table.set("name", "value").unwrap();
    let handle: Handle = LuaHandle::Table(table);
    let cloned = handle.clone();
    assert!(cloned.as_table().is_some());
}

#[test]
fn from_lua_table() {
    let lua = Lua::new();
    let value = LuaValue::Table(lua.create_table().unwrap());
    let handle = expect_handle(candidate(value), "LuaHandle").unwrap();
    assert!(matches!(handle, LuaHandle::Table(_)));
}

#[test]
fn from_lua_non_table_fails() {
    let value = LuaValue::Integer(42);
    let result = expect_handle(candidate(value), "LuaHandle");
    assert!(result.is_err());
    let err = result.unwrap_err();
    assert!(err.message.contains("expected a table or userdata"));
}

#[test]
fn expect_handle_with_table_succeeds() {
    let lua = Lua::new();
    let value = LuaValue::Table(lua.create_table().unwrap());
    let handle = expect_handle(candidate(value), "test_handle").unwrap();
    assert!(handle.as_table().is_some());
}

#[test]
fn expect_handle_with_userdata_succeeds() {
    let lua = Lua::new();
    let value = LuaValue::Table(lua.create_table().unwrap());
    let handle = expect_handle(candidate(value), "test_handle").unwrap();
    assert!(handle.as_table().is_some());
}

#[test]
fn expect_handle_with_integer_fails() {
    let value = LuaValue::Integer(42);
    let err = expect_handle(candidate(value), "test_handle").unwrap_err();
    assert!(err.message.contains("expected a table or userdata"));
}

#[test]
fn expect_table_with_table_succeeds() {
    let lua = Lua::new();
    let value = LuaValue::Table(lua.create_table().unwrap());
    let result = expect_table(candidate(value), "test_table");
    assert!(result.is_ok());
}

#[test]
fn expect_table_with_string_fails() {
    let lua = Lua::new();
    let value = LuaValue::String(lua.create_string("hello").unwrap());
    let err = expect_table(candidate(value), "test_table").unwrap_err();
    assert!(err.message.contains("expected a table"));
}

#[test]
fn require_functions_succeeds_for_valid_table() {
    let lua = Lua::new();
    let table = lua.create_table().unwrap();
    table.set("greet", lua.create_function(|_, _: ()| Ok(())).unwrap()).unwrap();
    let result = require_functions("test", &["greet"], |name: &str| look(&table, name));
    assert!(result.is_ok());
}

#[test]
fn require_functions_fails_for_missing_function() {
    let lua = Lua::new();
    let table = lua.create_table().unwrap();
    match require_functions("test", &["greet"], |name: &str| look(&table, name)) {
        Err(Refusal::Mismatch(err)) => {
            assert!(err.message.contains("missing required function"))
        }
        other => panic!("expected a mismatch, got {other:?}"),
    }
}

#[test]
fn require_functions_fails_for_non_function() {
    let lua = Lua::new();
    let table = lua.create_table().unwrap();
    table.set("greet", 42).unwrap();
    match require_functions("test", &["greet"], |name: &str| look(&table, name)) {
        Err(Refusal::Mismatch(err)) => assert!(err.message.contains("must be a function")),
        other => panic!("expected a mismatch, got {other:?}"),
    }
}

#[test]
fn require_handle_functions_succeeds_for_valid_handle() {
    let lua = Lua::new();
    let table = lua.create_table().unwrap();
    table.set("greet", lua.create_function(|_, _: ()| Ok(())).unwrap()).unwrap();
    let handle: Handle = LuaHandle::Table(table.clone());
    let result =
        require_handle_functions(&handle, "test", &["greet"], |name: &str| look(&table, name));
    assert!(result.is_ok());
}

#[test]
fn require_handle_functions_fails_for_non_function() {
    let lua = Lua::new();
    let table = lua.create_table().unwrap();
    table.set("greet", 42).unwrap();
    let handle: Handle = LuaHandle::Table(table.clone());
    let err =
        require_handle_functions(&handle, "test", &["greet"], |name: &str| look(&table, name))
            .unwrap_err();
    assert!(err.message.contains("must be a function"));
}

#[test]
fn the_first_unfit_name_is_reported() {
    let handle: LuaHandle<(), u8> = LuaHandle::UserData(1);
    let answer = |name: &str| match name {
        "a" => Lookup::Function,
        "b" => Lookup::Failed("no index".to_string()),
        _ => Lookup::Nil,
    };
    assert_eq!(
        require_handle_functions(&handle, "Greeter", &["a", "b", "c"], answer),
        Err(Mismatch {
            from: "userdata".to_string(),
            to: "Greeter".to_string(),
            message: "missing required function `b` (no index)".to_string(),
        })
    );
    assert_eq!(
        require_functions("Greeter", &["a", "b"], answer),
        Err(Refusal::Failed("no index".to_string()))
    );
    assert_eq!(handle.as_userdata(), Some(&1));
}
