//! The Lua objects that generated code wraps, and the checks made where one is wrapped.

use vstd::prelude::*;
use vstd::string::*;

verus! {

/// A Lua object a handle can wrap: a table, or userdata.
#[derive(Debug, Clone)]
pub enum LuaHandle<T, U> {
    /// A plain table, the usual shape for a Lua-defined class.
    Table(T),
    /// Userdata, for a class whose state lives on the host's side.
    UserData(U),
}

impl<T, U> LuaHandle<T, U> {
    /// The table inside, when this handle wraps one.
    pub fn as_table(&self) -> (r: Option<&T>)
        ensures
            match *self {
                LuaHandle::Table(table) => r == Some(&table),
                LuaHandle::UserData(_) => r is None,
            },
    {
        match self {
            LuaHandle::Table(table) => Some(table),
            LuaHandle::UserData(_) => None,
        }
    }

    /// The userdata inside, when this handle wraps some.
    pub fn as_userdata(&self) -> (r: Option<&U>)
        ensures
            match *self {
                LuaHandle::Table(_) => r is None,
                LuaHandle::UserData(data) => r == Some(&data),
            },
    {
        match self {
            LuaHandle::Table(_) => None,
            LuaHandle::UserData(data) => Some(data),
        }
    }

    /// Names the Lua type, for error messages.
    pub open spec fn kind_name(self) -> Seq<char> {
        match self {
            LuaHandle::Table(_) => "table"@,
            LuaHandle::UserData(_) => "userdata"@,
        }
    }

    /// Names the Lua type, for error messages.
    pub fn kind(&self) -> (r: &'static str)
        ensures
            r@ == self.kind_name(),
    {
        match self {
            LuaHandle::Table(_) => "table",
            LuaHandle::UserData(_) => "userdata",
        }
    }
}

/// A Lua value, as far as wrapping it is concerned.
#[derive(Debug)]
pub enum Candidate<T, U> {
    Table(T),
    UserData(U),
    /// Any other value, by the name of its type.
    Other(String),
}

impl<T, U> Candidate<T, U> {
    pub open spec fn kind_name(self) -> Seq<char> {
        match self {
            Candidate::Table(_) => "table"@,
            Candidate::UserData(_) => "userdata"@,
            Candidate::Other(name) => name@,
        }
    }
}

/// A Lua value that is not what was asked for.
#[derive(Debug, PartialEq, Eq)]
pub struct Mismatch {
    /// The Lua type that was found.
    pub from: String,
    /// What it should have become.
    pub to: String,
    /// Why it cannot.
    pub message: String,
}

impl Mismatch {
    pub open spec fn says(self, from: Seq<char>, to: Seq<char>, message: Seq<char>) -> bool {
        self.from@ == from && self.to@ == to && self.message@ == message
    }
}

/// Unwraps a value that is a table or userdata, or reports what it is instead.
pub fn expect_handle<T, U>(value: Candidate<T, U>, target: &str) -> (r: Result<
    LuaHandle<T, U>,
    Mismatch,
>)
    ensures
        match value {
            Candidate::Table(table) => r == Ok::<LuaHandle<T, U>, Mismatch>(LuaHandle::Table(table)),
            Candidate::UserData(data) => r == Ok::<LuaHandle<T, U>, Mismatch>(
                LuaHandle::UserData(data),
            ),
            Candidate::Other(name) => r matches Err(e) && e.says(
                name@,
                target@,
                "expected a table or userdata"@,
            ),
        },
{
    match value {
        Candidate::Table(table) => Ok(LuaHandle::Table(table)),
        Candidate::UserData(data) => Ok(LuaHandle::UserData(data)),
        Candidate::Other(name) => Err(
            Mismatch {
                from: name,
                to: target.to_owned(),
                message: "expected a table or userdata".to_owned(),
            },
        ),
    }
}

/// Unwraps a value known to be a table, or reports what it is instead.
pub fn expect_table<T, U>(value: Candidate<T, U>, target: &str) -> (r: Result<T, Mismatch>)
    ensures
        match value {
            Candidate::Table(table) => r == Ok::<T, Mismatch>(table),
            other => r matches Err(e) && e.says(other.kind_name(), target@, "expected a table"@),
        },
{
    let found = match value {
        Candidate::Table(table) => {
            return Ok(table);
        },
        Candidate::UserData(_) => "userdata".to_owned(),
        Candidate::Other(name) => name,
    };
    Err(Mismatch { from: found, to: target.to_owned(), message: "expected a table".to_owned() })
}

/// What stands under a key of a Lua object.
#[derive(Debug)]
pub enum Lookup {
    Function,
    Nil,
    /// Any other value, by the name of its type.
    Other(String),
    /// Nothing: reading the key raised this error.
    Failed(String),
}

/// Why what was found does not do as a required function.
pub open spec fn complaint(name: Seq<char>, found: Lookup) -> Option<Seq<char>> {
    match found {
        Lookup::Function => None,
        Lookup::Nil => Some("missing required function `"@ + name + "`"@),
        Lookup::Other(kind) => Some("`"@ + name + "` must be a function, found "@ + kind@),
        Lookup::Failed(error) => Some(
            "missing required function `"@ + name + "` ("@ + error@ + ")"@,
        ),
    }
}

/// Says why what was found does not do as a required function.
pub fn judge_function(name: &str, found: &Lookup) -> (r: Option<String>)
    ensures
        match complaint(name@, *found) {
            None => r is None,
            Some(message) => r matches Some(said) && said@ == message,
        },
{
    match found {
        Lookup::Function => None,
        Lookup::Nil => {
            let mut out = "missing required function `".to_owned();
            out.append(name);
            out.append("`");
            Some(out)
        },
        Lookup::Other(kind) => {
            let mut out = "`".to_owned();
            out.append(name);
            out.append("` must be a function, found ");
            out.append(kind.as_str());
            Some(out)
        },
        Lookup::Failed(error) => {
            let mut out = "missing required function `".to_owned();
            out.append(name);
            out.append("` (");
            out.append(error.as_str());
            out.append(")");
            Some(out)
        },
    }
}

/// Checks that every name resolves to a function on a table or userdata. Userdata with no
/// methods cannot be read at all: a key that cannot be read is not there.
pub fn require_handle_functions<T, U, F: Fn(&str) -> Lookup>(
    handle: &LuaHandle<T, U>,
    target: &str,
    names: &[&str],
    look: F,
) -> (r: Result<(), Mismatch>)
    requires
        forall|i: int| 0 <= i < names@.len() ==> call_requires(look, (#[trigger] names@[i],)),
    ensures
        match r {
            Ok(()) => forall|i: int|
                0 <= i < names@.len() ==> call_ensures(look, (#[trigger] names@[i],), Lookup::Function),
            Err(e) => exists|i: int, found: Lookup|
                {
                    &&& 0 <= i < names@.len()
                    &&& forall|j: int|
                        0 <= j < i ==> call_ensures(look, (#[trigger] names@[j],), Lookup::Function)
                    &&& #[trigger] call_ensures(look, (names@[i],), found)
                    &&& complaint(names@[i]@, found) matches Some(message) && e.says(
                        handle.kind_name(),
                        target@,
                        message,
                    )
                },
        },
{
    let mut i: usize = 0;
    while i < names.len()
        invariant
            i <= names@.len(),
            forall|i: int| 0 <= i < names@.len() ==> call_requires(look, (#[trigger] names@[i],)),
            forall|j: int|
                0 <= j < i ==> call_ensures(look, (#[trigger] names@[j],), Lookup::Function),
        decreases names@.len() - i,
    {
        let name: &str = names[i];
        let found = look(name);
        match judge_function(name, &found) {
            None => {},
            Some(message) => {
                proof {
                    assert(call_ensures(look, (names@[i as int],), found));
                }
                return Err(
                    Mismatch { from: handle.kind().to_owned(), to: target.to_owned(), message },
                );
            },
        }
        i = i + 1;
    }
    Ok(())
}

/// Why a table lacks a function: reading it failed, or it holds something else.
#[derive(Debug, PartialEq, Eq)]
pub enum Refusal {
    Failed(String),
    Mismatch(Mismatch),
}

/// Checks that every name resolves to a function on a table. A key that cannot be read is an
/// error of its own.
pub fn require_functions<F: Fn(&str) -> Lookup>(target: &str, names: &[&str], look: F) -> (r: Result<
    (),
    Refusal,
>)
    requires
        forall|i: int| 0 <= i < names@.len() ==> call_requires(look, (#[trigger] names@[i],)),
    ensures
        match r {
            Ok(()) => forall|i: int|
                0 <= i < names@.len() ==> call_ensures(look, (#[trigger] names@[i],), Lookup::Function),
            Err(e) => exists|i: int, found: Lookup|
                {
                    &&& 0 <= i < names@.len()
                    &&& forall|j: int|
                        0 <= j < i ==> call_ensures(look, (#[trigger] names@[j],), Lookup::Function)
                    &&& #[trigger] call_ensures(look, (names@[i],), found)
                    &&& match found {
                        Lookup::Failed(error) => e == Refusal::Failed(error),
                        _ => {
                            &&& complaint(names@[i]@, found) matches Some(message)
                            &&& e matches Refusal::Mismatch(m)
                            &&& m.says("table"@, target@, message)
                        },
                    }
                },
        },
{
    let mut i: usize = 0;
    while i < names.len()
        invariant
            i <= names@.len(),
            forall|i: int| 0 <= i < names@.len() ==> call_requires(look, (#[trigger] names@[i],)),
            forall|j: int|
                0 <= j < i ==> call_ensures(look, (#[trigger] names@[j],), Lookup::Function),
        decreases names@.len() - i,
    {
        let name: &str = names[i];
        let found = look(name);
        proof {
            assert(call_ensures(look, (names@[i as int],), found));
        }
        let judged = judge_function(name, &found);
        if let Lookup::Failed(error) = found {
            return Err(Refusal::Failed(error));
        }
        match judged {
            None => {},
            Some(message) => {
                return Err(
                    Refusal::Mismatch(
                        Mismatch { from: "table".to_owned(), to: target.to_owned(), message },
                    ),
                );
            },
        }
        i = i + 1;
    }
    Ok(())
}

} // verus!
