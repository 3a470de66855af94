//! What every language binding decides alike: which exception an error becomes, how deep a
//! value may nest, and which kind of value an object is.

use crate::error::Error;
use crate::text;
use vstd::prelude::*;
use vstd::string::*;

verus! {

/// The exception classes of a binding.
#[derive(Debug, Clone, Copy, PartialEq, Eq, Structural)]
pub enum ErrorClass {
    UnknownPlugin,
    Plugin,
    Lua,
    Io,
    Config,
    Capability,
    Reentrant,
    /// The class that all others are derived from.
    Base,
}

/// The exception class of an error in a binding that has one for each.
pub open spec fn class_of(error: Error) -> ErrorClass {
    match error {
        Error::UnknownPlugin(_) => ErrorClass::UnknownPlugin,
        Error::Plugin { .. } => ErrorClass::Plugin,
        Error::Lua(_) => ErrorClass::Lua,
        Error::Io(_) => ErrorClass::Io,
        Error::Config(_) => ErrorClass::Config,
        Error::Capability { .. } => ErrorClass::Capability,
        Error::Reentrant => ErrorClass::Reentrant,
        Error::Runtime(_) => ErrorClass::Base,
        Error::Wasm(_) => ErrorClass::Base,
    }
}

/// The exception class of an error: the Ruby binding has one for each.
pub fn ruby_class(error: &Error) -> (r: ErrorClass)
    ensures
        r == class_of(*error),
{
    match error {
        Error::UnknownPlugin(_) => ErrorClass::UnknownPlugin,
        Error::Plugin { .. } => ErrorClass::Plugin,
        Error::Lua(_) => ErrorClass::Lua,
        Error::Io(_) => ErrorClass::Io,
        Error::Config(_) => ErrorClass::Config,
        Error::Capability { .. } => ErrorClass::Capability,
        Error::Reentrant => ErrorClass::Reentrant,
        Error::Runtime(_) => ErrorClass::Base,
        Error::Wasm(_) => ErrorClass::Base,
    }
}

/// The name of an exception class of the Ruby binding.
pub fn ruby_name(class: ErrorClass) -> (r: &'static str)
    ensures
        r@ == match class {
            ErrorClass::UnknownPlugin => "Stanchion::UnknownPluginError"@,
            ErrorClass::Plugin => "Stanchion::PluginError"@,
            ErrorClass::Lua => "Stanchion::LuaError"@,
            ErrorClass::Io => "Stanchion::IOError"@,
            ErrorClass::Config => "Stanchion::ConfigError"@,
            ErrorClass::Capability => "Stanchion::CapabilityError"@,
            ErrorClass::Reentrant => "Stanchion::ReentrantError"@,
            ErrorClass::Base => "Stanchion::Error"@,
        },
{
    match class {
        ErrorClass::UnknownPlugin => "Stanchion::UnknownPluginError",
        ErrorClass::Plugin => "Stanchion::PluginError",
        ErrorClass::Lua => "Stanchion::LuaError",
        ErrorClass::Io => "Stanchion::IOError",
        ErrorClass::Config => "Stanchion::ConfigError",
        ErrorClass::Capability => "Stanchion::CapabilityError",
        ErrorClass::Reentrant => "Stanchion::ReentrantError",
        ErrorClass::Base => "Stanchion::Error",
    }
}

/// The exception class of an error: the Python binding has none for I/O.
pub fn python_class(error: &Error) -> (r: ErrorClass)
    ensures
        r == if class_of(*error) == ErrorClass::Io {
            ErrorClass::Base
        } else {
            class_of(*error)
        },
{
    match ruby_class(error) {
        ErrorClass::Io => ErrorClass::Base,
        other => other,
    }
}

/// The exception class of an error: the generated bindings have no base class, and take what
/// has no class of its own for one of configuration.
pub fn generated_class(error: &Error) -> (r: ErrorClass)
    ensures
        r == if class_of(*error) == ErrorClass::Base {
            ErrorClass::Config
        } else {
            class_of(*error)
        },
{
    match ruby_class(error) {
        ErrorClass::Base => ErrorClass::Config,
        other => other,
    }
}

/// How deep a structure may nest before conversion gives up: a list that contains itself is
/// easy to build.
pub const MAX_DEPTH: usize = 64;

/// The depth of what is inside a value at a depth, unless it nests too deep.
pub fn next_depth(depth: usize) -> (r: Result<usize, String>)
    ensures
        depth <= MAX_DEPTH ==> r == Ok::<usize, String>((depth + 1) as usize),
        depth > MAX_DEPTH ==> (r matches Err(message) && message@
            == "value nests deeper than 64 levels, or contains itself"@),
{
    if depth > MAX_DEPTH {
        return Err("value nests deeper than 64 levels, or contains itself".to_owned());
    }
    Ok(depth + 1)
}

/// What was found out about a Python object.
#[derive(Debug, Clone, Copy, PartialEq, Eq, Structural)]
pub struct PythonProbe {
    pub is_none: bool,
    pub is_bool: bool,
    pub is_int: bool,
    pub is_float: bool,
    pub is_str: bool,
    pub is_dict: bool,
    pub is_list: bool,
    pub is_tuple: bool,
}

/// What was found out about a Ruby object.
#[derive(Debug, Clone, Copy, PartialEq, Eq, Structural)]
pub struct RubyProbe {
    pub is_nil: bool,
    pub is_true: bool,
    pub is_false: bool,
    pub is_integer: bool,
    pub is_float: bool,
    pub is_string: bool,
    pub is_symbol: bool,
    pub is_array: bool,
    pub is_hash: bool,
}

/// What a foreign object becomes.
#[derive(Debug, Clone, Copy, PartialEq, Eq, Structural)]
pub enum ForeignKind {
    Nil,
    Bool,
    Int,
    Float,
    Str,
    Mapping,
    List,
    /// Nothing that can cross.
    Unsupported,
}

/// What a Python object becomes. A `bool` is an `int` there too, so it is asked for first;
/// a `str` is a sequence, so sequences are asked for last.
pub open spec fn python_kind_of(probe: PythonProbe) -> ForeignKind {
    if probe.is_none {
        ForeignKind::Nil
    } else if probe.is_bool {
        ForeignKind::Bool
    } else if probe.is_int {
        ForeignKind::Int
    } else if probe.is_float {
        ForeignKind::Float
    } else if probe.is_str {
        ForeignKind::Str
    } else if probe.is_dict {
        ForeignKind::Mapping
    } else if probe.is_list || probe.is_tuple {
        ForeignKind::List
    } else {
        ForeignKind::Unsupported
    }
}

/// What a Python object becomes.
pub fn python_kind(probe: &PythonProbe) -> (r: ForeignKind)
    ensures
        r == python_kind_of(*probe),
{
    if probe.is_none {
        ForeignKind::Nil
    } else if probe.is_bool {
        ForeignKind::Bool
    } else if probe.is_int {
        ForeignKind::Int
    } else if probe.is_float {
        ForeignKind::Float
    } else if probe.is_str {
        ForeignKind::Str
    } else if probe.is_dict {
        ForeignKind::Mapping
    } else if probe.is_list || probe.is_tuple {
        ForeignKind::List
    } else {
        ForeignKind::Unsupported
    }
}

/// What a Ruby object becomes. A symbol is a short constant, and arrives as a string.
pub open spec fn ruby_kind_of(probe: RubyProbe) -> ForeignKind {
    if probe.is_nil {
        ForeignKind::Nil
    } else if probe.is_true || probe.is_false {
        ForeignKind::Bool
    } else if probe.is_integer {
        ForeignKind::Int
    } else if probe.is_float {
        ForeignKind::Float
    } else if probe.is_string || probe.is_symbol {
        ForeignKind::Str
    } else if probe.is_array {
        ForeignKind::List
    } else if probe.is_hash {
        ForeignKind::Mapping
    } else {
        ForeignKind::Unsupported
    }
}

/// What a Ruby object becomes.
pub fn ruby_kind(probe: &RubyProbe) -> (r: ForeignKind)
    ensures
        r == ruby_kind_of(*probe),
{
    if probe.is_nil {
        ForeignKind::Nil
    } else if probe.is_true || probe.is_false {
        ForeignKind::Bool
    } else if probe.is_integer {
        ForeignKind::Int
    } else if probe.is_float {
        ForeignKind::Float
    } else if probe.is_string || probe.is_symbol {
        ForeignKind::Str
    } else if probe.is_array {
        ForeignKind::List
    } else if probe.is_hash {
        ForeignKind::Mapping
    } else {
        ForeignKind::Unsupported
    }
}

/// The message for a Python object that cannot cross.
pub fn python_unsupported(class: &str) -> (r: String)
    ensures
        r@ == "cannot pass a "@ + class@
            + " to a Lua plugin; use None, bool, int, float, str, list, tuple or dict"@,
{
    let mut out = "cannot pass a ".to_owned();
    out.append(class);
    out.append(" to a Lua plugin; use None, bool, int, float, str, list, tuple or dict");
    out
}

/// The message for a Ruby object that cannot cross.
pub fn ruby_unsupported(class: &str) -> (r: String)
    ensures
        r@ == "cannot pass a "@ + class@
            + " to a Lua plugin; use nil, true, false, Integer, Float, String, Symbol, Array or Hash"@,
{
    let mut out = "cannot pass a ".to_owned();
    out.append(class);
    out.append(
        " to a Lua plugin; use nil, true, false, Integer, Float, String, Symbol, Array or Hash",
    );
    out
}

/// A key of a Ruby hash.
#[derive(Debug, PartialEq, Eq)]
pub enum RubyKey {
    /// A symbol or a string.
    Text(String),
    Integer(i64),
    /// Anything else, by its class.
    Other(String),
}

/// A signed number in decimal.
pub fn signed_number(n: i64) -> (r: String)
    ensures
        r@ == text::signed_decimal(n as int),
{
    if n >= 0 {
        text::number(n as u64)
    } else {
        let mut out = "-".to_owned();
        let size: u64 = if n == i64::MIN {
            0x8000_0000_0000_0000
        } else {
            (-n) as u64
        };
        out.append(text::number(size).as_str());
        out
    }
}

/// A key of a Ruby hash as a string, since Lua table keys arrive as strings.
pub fn ruby_key(key: &RubyKey) -> (r: Result<String, String>)
    ensures
        match *key {
            RubyKey::Text(name) => r matches Ok(found) && found@ == name@,
            RubyKey::Integer(n) => r matches Ok(found) && found@ == text::signed_decimal(n as int),
            RubyKey::Other(class) => r matches Err(message) && message@ == "a Hash keyed by "@
                + class@ + " cannot cross into Lua"@,
        },
{
    match key {
        RubyKey::Text(name) => Ok(name.clone()),
        RubyKey::Integer(n) => Ok(signed_number(*n)),
        RubyKey::Other(class) => {
            let mut out = "a Hash keyed by ".to_owned();
            out.append(class.as_str());
            out.append(" cannot cross into Lua");
            Err(out)
        },
    }
}

} // verus!
