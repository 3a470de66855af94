//! Errors raised while discovering, loading and reloading plugins.

use crate::lock::{LockError, LockFault};
use crate::text;
use vstd::prelude::*;
use vstd::string::*;

verus! {

/// What a panic said, once it was caught.
#[derive(Debug, Clone, PartialEq, Eq)]
pub struct Panicked {
    message: String,
}

/// What the payload of a panic says: a text, or that it holds none.
pub open spec fn payload_text(literal: Option<Seq<char>>, owned: Option<Seq<char>>) -> Seq<char> {
    match literal {
        Some(text) => text,
        None => match owned {
            Some(text) => text,
            None => "no message"@,
        },
    }
}

/// What the payload of a panic says, given the text it holds as a literal or as a string.
pub fn describe(literal: Option<&str>, owned: Option<&str>) -> (r: String)
    ensures
        r@ == payload_text(
            crate::signature::opt_str(literal),
            crate::signature::opt_str(owned),
        ),
{
    match literal {
        Some(text) => text.to_owned(),
        None => match owned {
            Some(text) => text.to_owned(),
            None => "no message".to_owned(),
        },
    }
}

impl Panicked {
    /// What the panic said.
    pub closed spec fn said(self) -> Seq<char> {
        self.message@
    }

    /// A caught panic, by what it said.
    pub fn new(message: String) -> (r: Panicked)
        ensures
            r.said() == message@,
    {
        Panicked { message }
    }

    /// What the panic said.
    pub fn message(&self) -> (r: &str)
        ensures
            r@ == self.said(),
    {
        self.message.as_str()
    }

    /// The panic written out.
    pub fn to_string(&self) -> (r: String)
        ensures
            r@ == panic_text(self.said()),
    {
        let mut out = "the plugin call panicked: ".to_owned();
        out.append(self.message.as_str());
        out
    }
}

/// How a caught panic is told.
pub open spec fn panic_text(said: Seq<char>) -> Seq<char> {
    "the plugin call panicked: "@ + said
}

/// Why a single plugin failed to load.
#[derive(Debug, PartialEq, Eq)]
pub enum FailureReason {
    /// The manifest or entry file could not be read.
    Io(String),
    /// The manifest was not valid TOML, or was missing a required key.
    Manifest(String),
    /// The chunk failed to run, did not return a valid class, or the constructor failed.
    Lua(String),
    /// A declared dependency is not present in the plugin root.
    MissingDependency(String),
    /// A dependency is present but its version does not satisfy the requirement.
    IncompatibleDependency { name: String, required: String, found: String },
    /// A plugin is wired to a dependency that publishes no `exports` table.
    MissingExports(String),
    /// A dependency lives in another Lua state, so its exports cannot be handed over.
    CrossStateDependency(String),
    /// The plugin carries no signature and the registry requires one.
    Unsigned,
    /// A signature was present but did not verify.
    SignatureInvalid(String),
    /// The signature verified but the signer is not trusted.
    UntrustedSigner(String),
    /// The build or its signer is on the host's revocation list.
    Revoked(String),
    /// The build is not the one the lockfile pins.
    Lock(LockError),
    /// A file's bytes changed between verification and loading.
    DigestMismatch(String),
    /// Policy refused a capability the plugin requires.
    CapabilityDenied { name: String, reason: String },
    /// The plugin requested a capability the host does not offer.
    UnknownCapability(String),
    /// A declared rock is not installed in the configured tree.
    MissingRock { name: String, required: String },
    /// A declared rock is installed at a version that fails its requirement.
    IncompatibleRock { name: String, required: String, found: String },
    /// The rocks subsystem could not answer for this plugin.
    Rocks(String),
    /// A declared dependency failed to load, so this plugin was skipped.
    DependencyFailed(String),
    /// This plugin is part of a dependency cycle.
    DependencyCycle(Vec<String>),
    /// Code of the host panicked while the plugin was being loaded.
    Panicked(Panicked),
}

/// Why a plugin failed to load, apart from how it is stored.
pub enum Why {
    Io(Seq<char>),
    Manifest(Seq<char>),
    Lua(Seq<char>),
    MissingDependency(Seq<char>),
    IncompatibleDependency { name: Seq<char>, required: Seq<char>, found: Seq<char> },
    MissingExports(Seq<char>),
    CrossStateDependency(Seq<char>),
    Unsigned,
    SignatureInvalid(Seq<char>),
    UntrustedSigner(Seq<char>),
    Revoked(Seq<char>),
    Lock(LockFault),
    DigestMismatch(Seq<char>),
    CapabilityDenied { name: Seq<char>, reason: Seq<char> },
    UnknownCapability(Seq<char>),
    MissingRock { name: Seq<char>, required: Seq<char> },
    IncompatibleRock { name: Seq<char>, required: Seq<char>, found: Seq<char> },
    Rocks(Seq<char>),
    DependencyFailed(Seq<char>),
    DependencyCycle(Seq<Seq<char>>),
    Panicked(Seq<char>),
}

impl View for FailureReason {
    type V = Why;

    open spec fn view(&self) -> Why {
        match *self {
            FailureReason::Io(x) => Why::Io(x@),
            FailureReason::Manifest(x) => Why::Manifest(x@),
            FailureReason::Lua(x) => Why::Lua(x@),
            FailureReason::MissingDependency(x) => Why::MissingDependency(x@),
            FailureReason::IncompatibleDependency { name, required, found } => Why::IncompatibleDependency { name: name@, required: required@, found: found@ },
            FailureReason::MissingExports(x) => Why::MissingExports(x@),
            FailureReason::CrossStateDependency(x) => Why::CrossStateDependency(x@),
            FailureReason::Unsigned => Why::Unsigned,
            FailureReason::SignatureInvalid(x) => Why::SignatureInvalid(x@),
            FailureReason::UntrustedSigner(x) => Why::UntrustedSigner(x@),
            FailureReason::Revoked(x) => Why::Revoked(x@),
            FailureReason::Lock(x) => Why::Lock(x@),
            FailureReason::DigestMismatch(x) => Why::DigestMismatch(x@),
            FailureReason::CapabilityDenied { name, reason } => Why::CapabilityDenied { name: name@, reason: reason@ },
            FailureReason::UnknownCapability(x) => Why::UnknownCapability(x@),
            FailureReason::MissingRock { name, required } => Why::MissingRock { name: name@, required: required@ },
            FailureReason::IncompatibleRock { name, required, found } => Why::IncompatibleRock { name: name@, required: required@, found: found@ },
            FailureReason::Rocks(x) => Why::Rocks(x@),
            FailureReason::DependencyFailed(x) => Why::DependencyFailed(x@),
            FailureReason::DependencyCycle(x) => Why::DependencyCycle(text::texts(x@)),
            FailureReason::Panicked(x) => Why::Panicked(x.said()),
        }
    }
}

impl Why {
    /// What the reason says.
    pub open spec fn message(self) -> Seq<char> {
        match self {
            Why::Io(x) => x,
            Why::Manifest(x) => "invalid manifest: "@ + x,
            Why::Lua(x) => x,
            Why::MissingDependency(x) => "depends on `"@ + x + "`, which was not found"@,
            Why::IncompatibleDependency { name, required, found } => "requires `"@ + name + "` "@ + required + ", but it publishes "@ + found,
            Why::MissingExports(x) => "`"@ + x + "` declares no `exports` table"@,
            Why::CrossStateDependency(x) => "depends on `"@ + x + "`, but per-plugin isolation gives each plugin its own Lua state and values cannot cross states"@,
            Why::Unsigned => "carries no signature, and this registry requires one"@,
            Why::SignatureInvalid(x) => x,
            Why::UntrustedSigner(x) => x,
            Why::Revoked(x) => x,
            Why::Lock(x) => x.message(),
            Why::DigestMismatch(x) => "`"@ + x + "` changed between verification and loading"@,
            Why::CapabilityDenied { name, reason } => "capability `"@ + name + "` denied: "@ + reason,
            Why::UnknownCapability(x) => "requests capability `"@ + x + "`, which the host does not offer"@,
            Why::MissingRock { name, required } => "rock `"@ + name + "` "@ + required + " is not installed"@,
            Why::IncompatibleRock { name, required, found } => "rock `"@ + name + "` "@ + required + " is installed at "@ + found,
            Why::Rocks(x) => x,
            Why::DependencyFailed(x) => "skipped because `"@ + x + "` failed to load"@,
            Why::DependencyCycle(x) => "dependency cycle: "@ + text::joined(x, " -> "@),
            Why::Panicked(x) => panic_text(x),
        }
    }
}

impl FailureReason {
    /// The reason written out.
    pub fn to_string(&self) -> (r: String)
        ensures
            r@ == self@.message(),
    {
        match self {
            FailureReason::Io(x) => x.clone(),
            FailureReason::Manifest(x) => {
                let mut out = "invalid manifest: ".to_owned();
                out.append(x.as_str());
                out
            },
            FailureReason::Lua(x) => x.clone(),
            FailureReason::MissingDependency(x) => {
                let mut out = "depends on `".to_owned();
                out.append(x.as_str());
                out.append("`, which was not found");
                out
            },
            FailureReason::IncompatibleDependency { name, required, found } => {
                let mut out = "requires `".to_owned();
                out.append(name.as_str());
                out.append("` ");
                out.append(required.as_str());
                out.append(", but it publishes ");
                out.append(found.as_str());
                out
            },
            FailureReason::MissingExports(x) => {
                let mut out = "`".to_owned();
                out.append(x.as_str());
                out.append("` declares no `exports` table");
                out
            },
            FailureReason::CrossStateDependency(x) => {
                let mut out = "depends on `".to_owned();
                out.append(x.as_str());
                out.append("`, but per-plugin isolation gives each plugin its own Lua state and values cannot cross states");
                out
            },
            FailureReason::Unsigned => "carries no signature, and this registry requires one".to_owned(),
            FailureReason::SignatureInvalid(x) => x.clone(),
            FailureReason::UntrustedSigner(x) => x.clone(),
            FailureReason::Revoked(x) => x.clone(),
            FailureReason::Lock(x) => x.to_string(),
            FailureReason::DigestMismatch(x) => {
                let mut out = "`".to_owned();
                out.append(x.as_str());
                out.append("` changed between verification and loading");
                out
            },
            FailureReason::CapabilityDenied { name, reason } => {
                let mut out = "capability `".to_owned();
                out.append(name.as_str());
                out.append("` denied: ");
                out.append(reason.as_str());
                out
            },
            FailureReason::UnknownCapability(x) => {
                let mut out = "requests capability `".to_owned();
                out.append(x.as_str());
                out.append("`, which the host does not offer");
                out
            },
            FailureReason::MissingRock { name, required } => {
                let mut out = "rock `".to_owned();
                out.append(name.as_str());
                out.append("` ");
                out.append(required.as_str());
                out.append(" is not installed");
                out
            },
            FailureReason::IncompatibleRock { name, required, found } => {
                let mut out = "rock `".to_owned();
                out.append(name.as_str());
                out.append("` ");
                out.append(required.as_str());
                out.append(" is installed at ");
                out.append(found.as_str());
                out
            },
            FailureReason::Rocks(x) => x.clone(),
            FailureReason::DependencyFailed(x) => {
                let mut out = "skipped because `".to_owned();
                out.append(x.as_str());
                out.append("` failed to load");
                out
            },
            FailureReason::DependencyCycle(x) => {
                let mut out = "dependency cycle: ".to_owned();
                out.append(text::join(x, " -> ").as_str());
                out
            },
            FailureReason::Panicked(x) => x.to_string(),
        }
    }
}

/// One plugin that could not be loaded, and why.
#[derive(Debug, PartialEq, Eq)]
pub struct LoadFailure {
    /// Plugin name, or the directory name when the manifest itself was unreadable.
    pub name: String,
    /// Directory the plugin was discovered in.
    pub dir: String,
    /// What went wrong.
    pub reason: FailureReason,
}

/// What a failure is, apart from how it is stored.
pub struct Failed {
    pub name: Seq<char>,
    pub dir: Seq<char>,
    pub reason: Why,
}

impl View for LoadFailure {
    type V = Failed;

    open spec fn view(&self) -> Failed {
        Failed { name: self.name@, dir: self.dir@, reason: self.reason@ }
    }
}

/// The failures of a list.
pub open spec fn failed(list: Seq<LoadFailure>) -> Seq<Failed> {
    list.map_values(|f: LoadFailure| f@)
}

impl Failed {
    /// What a failure says.
    pub open spec fn message(self) -> Seq<char> {
        "plugin `"@ + self.name + "` ("@ + self.dir + "): "@ + self.reason.message()
    }
}

impl LoadFailure {
    /// The failure written out.
    pub fn to_string(&self) -> (r: String)
        ensures
            r@ == self@.message(),
    {
        let mut out = "plugin `".to_owned();
        out.append(self.name.as_str());
        out.append("` (");
        out.append(self.dir.as_str());
        out.append("): ");
        out.append(self.reason.to_string().as_str());
        out
    }
}

/// A fatal registry error: the caller asked for something that cannot proceed.
///
/// Problems with an individual plugin are reported as a [`LoadFailure`] instead, so one bad
/// plugin never stops the others from loading.
#[derive(Debug, PartialEq, Eq)]
pub enum RegistryError {
    /// The plugin root could not be read.
    Io { path: String, source: String },
    /// A reload named a plugin the registry does not hold.
    UnknownPlugin(String),
    /// A plugin failed while being reloaded, which leaves the old instance in place.
    Reload(LoadFailure),
    /// A plugin state could not be created or configured.
    Lua(String),
    /// The `luarocks` command could not be queried, so no plugin can be verified.
    Rocks(String),
}

impl RegistryError {
    /// What the error says.
    pub open spec fn message(self) -> Seq<char> {
        match self {
            RegistryError::Io { path, source } => "reading `"@ + path@ + "`: "@ + source@,
            RegistryError::UnknownPlugin(name) => "no plugin named `"@ + name@ + "`"@,
            RegistryError::Reload(failure) => "reloading "@ + failure@.message(),
            RegistryError::Lua(source) => "creating a plugin state: "@ + source@,
            RegistryError::Rocks(source) => "luarocks: "@ + source@,
        }
    }

    /// The error written out.
    pub fn to_string(&self) -> (r: String)
        ensures
            r@ == self.message(),
    {
        match self {
            RegistryError::Io { path, source } => {
                let mut out = "reading `".to_owned();
                out.append(path.as_str());
                out.append("`: ");
                out.append(source.as_str());
                out
            },
            RegistryError::UnknownPlugin(name) => {
                let mut out = "no plugin named `".to_owned();
                out.append(name.as_str());
                out.append("`");
                out
            },
            RegistryError::Reload(failure) => {
                let mut out = "reloading ".to_owned();
                out.append(failure.to_string().as_str());
                out
            },
            RegistryError::Lua(source) => {
                let mut out = "creating a plugin state: ".to_owned();
                out.append(source.as_str());
                out
            },
            RegistryError::Rocks(source) => {
                let mut out = "luarocks: ".to_owned();
                out.append(source.as_str());
                out
            },
        }
    }
}

} // verus!
