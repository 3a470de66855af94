//! Plugin manifests: the static declaration a plugin ships.

use crate::names::NameMap;
use crate::path;
use crate::text;
use crate::value::Toml;
use crate::version;
use crate::version::{Version, VersionReq};
use vstd::prelude::*;
use vstd::string::*;

verus! {

/// File each plugin directory must contain to be discovered.
pub const MANIFEST_FILE: &'static str = "plugin.toml";

/// The entry of a manifest that names none.
pub fn default_entry() -> (r: String)
    ensures
        r@ == "init.lua"@,
{
    "init.lua".to_owned()
}

/// Which runtime backend a plugin uses.
#[derive(Debug, Clone, Copy, PartialEq, Eq, Structural)]
pub enum PluginType {
    /// A Lua plugin (the default).
    Lua,
    /// A WASM plugin.
    Wasm,
}

impl Default for PluginType {
    fn default() -> (r: PluginType)
        ensures
            r == PluginType::Lua,
    {
        PluginType::Lua
    }
}

/// Static budget declared in a plugin manifest.
#[derive(Debug, Clone, Copy, PartialEq, Eq, Structural)]
pub struct Budget {
    /// Hard cap on VM instructions per plugin call.
    pub max_instructions: u64,
}

/// The table form of a dependency.
#[derive(Debug, Clone, PartialEq)]
pub struct DetailedDependency {
    /// Semver requirement the dependency's version must satisfy.
    pub version: VersionReq,
    /// When true, an absent dependency leaves a `nil` slot instead of failing.
    pub optional: bool,
}

/// A dependency entry: either a bare requirement or the table form.
#[derive(Debug, Clone, PartialEq)]
pub enum DependencySpec {
    /// `formatter = "^1.0"`
    Requirement(VersionReq),
    /// `formatter = { version = "^1.0", optional = true }`
    Detailed(DetailedDependency),
}

impl DependencySpec {
    /// The requirement of a dependency.
    pub open spec fn required(self) -> Seq<char> {
        match self {
            DependencySpec::Requirement(requirement) => requirement@,
            DependencySpec::Detailed(detailed) => detailed.version@,
        }
    }

    /// Whether a dependency may be absent.
    pub open spec fn may_be_absent(self) -> bool {
        match self {
            DependencySpec::Requirement(_) => false,
            DependencySpec::Detailed(detailed) => detailed.optional,
        }
    }

    /// The semver requirement this dependency must satisfy.
    pub fn requirement(&self) -> (r: &VersionReq)
        ensures
            r@ == self.required(),
    {
        match self {
            DependencySpec::Requirement(requirement) => requirement,
            DependencySpec::Detailed(detailed) => &detailed.version,
        }
    }

    /// Whether the plugin still loads when this dependency is absent.
    pub fn is_optional(&self) -> (r: bool)
        ensures
            r == self.may_be_absent(),
    {
        match self {
            DependencySpec::Requirement(_) => false,
            DependencySpec::Detailed(detailed) => detailed.optional,
        }
    }
}

/// One parameter of a capability: its value, and the value as TOML writes it.
#[derive(Debug, PartialEq)]
pub struct Param {
    pub value: Toml,
    pub text: String,
}

/// A plugin's `plugin.toml`.
#[derive(Debug, PartialEq)]
pub struct Manifest {
    /// Unique plugin name. Dispatch, reload and dependencies address plugins by this.
    pub name: String,
    /// Semver version other plugins match their requirements against. A plugin without
    /// one is treated as `0.0.0`.
    pub version: Option<Version>,
    /// Which runtime backend this plugin uses.
    pub plugin_type: PluginType,
    /// File to evaluate, relative to the plugin directory.
    pub entry: String,
    /// Plugins this one is wired to, by name.
    pub dependencies: NameMap<DependencySpec>,
    /// Capabilities this plugin requests, as name to parameters.
    pub capabilities: NameMap<NameMap<Param>>,
    /// LuaRocks packages this plugin needs, as name to requirement.
    pub rocks: NameMap<String>,
    /// Passed to the plugin's constructor.
    pub config: NameMap<Toml>,
    /// Optional per-plugin instruction budget.
    pub budget: Option<Budget>,
    /// Directory the manifest was read from. Filled in by discovery.
    pub dir: String,
}

/// The text of `0.0.0`.
pub open spec fn zero_version() -> Seq<char> {
    version::three_numbers(0, 0, 0)
}

/// What is wrong with the entry of a manifest, if anything.
pub open spec fn entry_fault(plugin_type: PluginType, entry: Seq<char>) -> Option<Seq<char>> {
    let steps = path::path_steps(entry);
    if entry.len() == 0 {
        Some("plugin entry must not be empty"@)
    } else if path::absolute(entry) {
        Some("plugin entry '"@ + entry + "' must be a relative path inside the plugin"@)
    } else if steps.contains(path::Step::Up) {
        Some("plugin entry '"@ + entry + "' must not contain '..'"@)
    } else if plugin_type == PluginType::Lua && !text::ends(entry, ".lua"@) {
        Some("Lua plugin entry must end with '.lua', got '"@ + entry + "'"@)
    } else if plugin_type == PluginType::Wasm && !text::ends(entry, ".wasm"@) {
        Some("WASM plugin entry must end with '.wasm', got '"@ + entry + "'"@)
    } else {
        None
    }
}

/// What is wrong with the path of an entry, if anything.
pub open spec fn entry_path_fault(entry: Seq<char>) -> Option<Seq<char>> {
    if entry.len() == 0 {
        Some("plugin entry must not be empty"@)
    } else if path::absolute(entry) {
        Some("plugin entry '"@ + entry + "' must be a relative path inside the plugin"@)
    } else if path::path_steps(entry).contains(path::Step::Up) {
        Some("plugin entry '"@ + entry + "' must not contain '..'"@)
    } else {
        None
    }
}

/// The view of an error text, where there is one.
pub open spec fn fault(r: Result<(), String>) -> Option<Seq<char>> {
    match r {
        Ok(_) => None,
        Err(message) => Some(message@),
    }
}

impl Manifest {
    /// The maps of a manifest name each thing once, in order.
    pub open spec fn wf(self) -> bool {
        &&& self.dependencies.wf()
        &&& self.capabilities.wf()
        &&& self.rocks.wf()
        &&& self.config.wf()
        &&& forall|i: int|
            0 <= i < self.capabilities@.len() ==> (#[trigger] self.capabilities@[i]).1.wf()
    }

    /// The version other plugins match against.
    pub open spec fn published(self) -> Seq<char> {
        match self.version {
            Some(version) => version@,
            None => zero_version(),
        }
    }

    /// Confirms the manifest's entry matches its plugin type and names a file inside the
    /// plugin directory: a relative path without `..`.
    pub fn validate(&self) -> (r: Result<(), String>)
        ensures
            fault(r) == entry_fault(self.plugin_type, self.entry@),
    {
        match self.validate_entry_path() {
            Err(message) => {
                return Err(message);
            },
            Ok(_) => {},
        }
        match self.plugin_type {
            PluginType::Lua => {
                if !text::ends_with(self.entry.as_str(), ".lua") {
                    let mut out = "Lua plugin entry must end with '.lua', got '".to_owned();
                    out.append(self.entry.as_str());
                    out.append("'");
                    return Err(out);
                }
            },
            PluginType::Wasm => {
                if !text::ends_with(self.entry.as_str(), ".wasm") {
                    let mut out = "WASM plugin entry must end with '.wasm', got '".to_owned();
                    out.append(self.entry.as_str());
                    out.append("'");
                    return Err(out);
                }
            },
        }
        Ok(())
    }

    /// Confirms `entry` is a relative path confined to the plugin directory.
    fn validate_entry_path(&self) -> (r: Result<(), String>)
        ensures
            fault(r) == entry_path_fault(self.entry@),
    {
        if self.entry.as_str().is_empty() {
            return Err("plugin entry must not be empty".to_owned());
        }
        let parts = path::components(self.entry.as_str());
        let ghost all = path::path_steps(self.entry@);
        let n: usize = parts.len();
        let mut i: usize = 0;
        while i < n
            invariant
                n == parts.len(),
                i <= n,
                all == path::path_steps(self.entry@),
                path::steps(parts@) == all,
                self.entry@.len() > 0,
                path::absolute(self.entry@) ==> i == 0,
                forall|j: int| 0 <= j < i ==> #[trigger] all[j] != path::Step::Up,
            decreases n - i,
        {
            proof {
                assert(all[i as int] == parts@[i as int].step());
                root_first(self.entry@);
            }
            match &parts[i] {
                path::Component::Name(_) => {},
                path::Component::Here => {},
                path::Component::Up => {
                    proof {
                        assert(all.contains(path::Step::Up));
                    }
                    let mut out = "plugin entry '".to_owned();
                    out.append(self.entry.as_str());
                    out.append("' must not contain '..'");
                    return Err(out);
                },
                path::Component::Root => {
                    let mut out = "plugin entry '".to_owned();
                    out.append(self.entry.as_str());
                    out.append("' must be a relative path inside the plugin");
                    return Err(out);
                },
            }
            i = i + 1;
        }
        proof {
            root_first(self.entry@);
        }
        Ok(())
    }

    /// Path of the plugin's entry chunk.
    pub fn entry_path(&self) -> (r: String)
        ensures
            r@ == path::under(self.dir@, self.entry@),
    {
        path::join(self.dir.as_str(), self.entry.as_str())
    }

    /// The version other plugins match against; absent means `0.0.0`.
    pub fn effective_version(&self) -> (r: Version)
        ensures
            r@ == self.published(),
    {
        match &self.version {
            Some(version) => version.clone(),
            None => Version::new(0, 0, 0),
        }
    }
}

/// The root step is the first of an absolute path and no step of any other.
proof fn root_first(s: Seq<char>)
    ensures
        path::absolute(s) ==> path::path_steps(s).len() > 0 && path::path_steps(s)[0]
            == path::Step::Root,
        forall|i: int|
            0 <= i < path::path_steps(s).len() && !(path::absolute(s) && i == 0)
                ==> #[trigger] path::path_steps(s)[i] != path::Step::Root,
{
    let parts = text::pieces(s, '/');
    let rest = path::piece_steps(parts, parts.len() as int);
    no_root(parts, parts.len() as int);
    if path::absolute(s) {
        assert forall|i: int| 0 < i < path::path_steps(s).len() implies #[trigger] path::path_steps(
            s,
        )[i] != path::Step::Root by {
            assert(path::path_steps(s)[i] == rest[i - 1]);
        }
    }
}

proof fn no_root(parts: Seq<Seq<char>>, n: int)
    ensures
        forall|i: int|
            0 <= i < path::piece_steps(parts, n).len() ==> #[trigger] path::piece_steps(parts, n)[i]
                != path::Step::Root,
    decreases n,
{
    if n > 0 {
        no_root(parts, n - 1);
    }
}

/// An entry that passes is confined to the plugin: it is relative, and no step of it goes up.
pub proof fn valid_entry_is_confined(plugin_type: PluginType, entry: Seq<char>)
    requires
        entry_fault(plugin_type, entry) is None,
    ensures
        entry.len() > 0,
        !path::absolute(entry),
        forall|i: int|
            0 <= i < path::path_steps(entry).len() ==> #[trigger] path::path_steps(entry)[i]
                is Name || path::path_steps(entry)[i] is Here,
{
    root_first(entry);
    assert forall|i: int| 0 <= i < path::path_steps(entry).len() implies #[trigger] path::path_steps(
        entry,
    )[i] is Name || path::path_steps(entry)[i] is Here by {
        assert(path::path_steps(entry).contains(path::path_steps(entry)[i]));
    }
}

} // verus!
