//! One error type, flat enough to survive any backend and any foreign type system.

use vstd::prelude::*;
use vstd::string::*;

verus! {

/// A runtime error from a foreign environment.
#[derive(Debug, Clone, PartialEq, Eq)]
pub struct RuntimeError {
    /// The runtime that produced the error, e.g. `"lua"` or `"wasm"`.
    pub runtime_name: String,
    /// The underlying error message.
    pub error: String,
}

impl RuntimeError {
    pub open spec fn message(self) -> Seq<char> {
        self.runtime_name@ + " runtime error: "@ + self.error@
    }

    /// The error written out.
    pub fn to_string(&self) -> (r: String)
        ensures
            r@ == self.message(),
    {
        let mut out = self.runtime_name.clone();
        out.append(" runtime error: ");
        out.append(self.error.as_str());
        out
    }
}

/// What went wrong.
#[derive(Debug, Clone, PartialEq, Eq)]
pub enum Error {
    /// No plugin by that name is loaded.
    UnknownPlugin(String),
    /// One plugin failed to load, reload, or verify.
    Plugin { plugin: String, reason: String },
    /// A Lua chunk or call raised.
    Lua(String),
    /// A runtime (Lua, WASM, etc.) raised, or a value could not cross a boundary.
    Runtime(RuntimeError),
    /// A WASM plugin failed to load, run, or answer a call.
    Wasm(String),
    /// The plugin root could not be read.
    Io(String),
    /// The host's own configuration is wrong: an unknown library, a bad root.
    Config(String),
    /// A capability provider refused or failed.
    Capability { capability: String, reason: String },
    /// A capability provider called back into the registry that invoked it.
    Reentrant,
}

/// The message of [`Error::Reentrant`].
pub open spec fn reentrant_message() -> Seq<char> {
    "a capability provider called back into the registry that invoked it, which would deadlock; do the work without re-entering stanchion"@
}

impl Error {
    /// The tag of an error.
    pub open spec fn kind_text(self) -> Seq<char> {
        match self {
            Error::UnknownPlugin(_) => "unknown-plugin"@,
            Error::Plugin { .. } => "plugin"@,
            Error::Lua(_) => "lua"@,
            Error::Runtime(_) => "runtime"@,
            Error::Wasm(_) => "wasm"@,
            Error::Io(_) => "io"@,
            Error::Config(_) => "config"@,
            Error::Capability { .. } => "capability"@,
            Error::Reentrant => "reentrant"@,
        }
    }

    /// What an error says.
    pub open spec fn message(self) -> Seq<char> {
        match self {
            Error::UnknownPlugin(name) => "no plugin named `"@ + name@ + "`"@,
            Error::Plugin { plugin, reason } => "plugin `"@ + plugin@ + "`: "@ + reason@,
            Error::Lua(message) => message@,
            Error::Runtime(err) => err.message(),
            Error::Wasm(message) => message@,
            Error::Io(message) => message@,
            Error::Config(message) => "configuration: "@ + message@,
            Error::Capability { capability, reason } => "capability `"@ + capability@ + "`: "@
                + reason@,
            Error::Reentrant => reentrant_message(),
        }
    }

    /// A configuration error.
    pub fn config(err: &str) -> (r: Error)
        ensures
            r matches Error::Config(message) && message@ == err@,
    {
        Error::Config(err.to_owned())
    }

    /// A short, stable tag a binding can map onto its own exception classes.
    pub fn kind(&self) -> (r: &'static str)
        ensures
            r@ == self.kind_text(),
    {
        match self {
            Error::UnknownPlugin(_) => "unknown-plugin",
            Error::Plugin { .. } => "plugin",
            Error::Lua(_) => "lua",
            Error::Runtime(_) => "runtime",
            Error::Wasm(_) => "wasm",
            Error::Io(_) => "io",
            Error::Config(_) => "config",
            Error::Capability { .. } => "capability",
            Error::Reentrant => "reentrant",
        }
    }

    /// The error written out.
    pub fn to_string(&self) -> (r: String)
        ensures
            r@ == self.message(),
    {
        match self {
            Error::UnknownPlugin(name) => {
                let mut out = "no plugin named `".to_owned();
                out.append(name.as_str());
                out.append("`");
                out
            },
            Error::Plugin { plugin, reason } => {
                let mut out = "plugin `".to_owned();
                out.append(plugin.as_str());
                out.append("`: ");
                out.append(reason.as_str());
                out
            },
            Error::Lua(message) => message.clone(),
            Error::Runtime(err) => err.to_string(),
            Error::Wasm(message) => message.clone(),
            Error::Io(message) => message.clone(),
            Error::Config(message) => {
                let mut out = "configuration: ".to_owned();
                out.append(message.as_str());
                out
            },
            Error::Capability { capability, reason } => {
                let mut out = "capability `".to_owned();
                out.append(capability.as_str());
                out.append("`: ");
                out.append(reason.as_str());
                out
            },
            Error::Reentrant => "a capability provider called back into the registry that invoked it, which would deadlock; do the work without re-entering stanchion".to_owned(),
        }
    }
}

} // verus!
