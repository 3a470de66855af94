//! Declarative configuration for a registry built by something other than Rust code.
//!
//! Neither an out-of-process host nor a foreign-language binding can be handed a closure.
//! Both need a description of the policy in data instead. This module is that description.

use crate::resolve::copy_list;
use crate::sandbox::{no_libs, is_lib, with_lib, Libs, Sandbox, SandboxModel, restricted_model};
use crate::text;
use vstd::prelude::*;
use vstd::string::*;

verus! {

/// How a host runs plugins: what they may reach, and what they cost.
#[derive(Debug, Clone, PartialEq)]
pub struct HostConfig {
    /// Directory to load plugins from when the caller does not name one.
    pub plugins: Option<String>,
    /// State policy for each plugin.
    pub sandbox: SandboxConfig,
    /// Capability names the host will grant.
    pub capabilities: CapabilityConfig,
    /// Signature requirements.
    pub signatures: SignatureConfig,
}

/// Standard libraries and resource limits for plugin states.
#[derive(Debug, Clone, PartialEq)]
pub struct SandboxConfig {
    /// Library names: `string`, `table`, `math`, `coroutine`, `package`, `io`, `os`, `debug`.
    pub libs: Option<Vec<String>>,
    /// Globals to unbind after the libraries load, by dotted path.
    pub deny: Option<Vec<String>>,
    /// Memory ceiling per plugin, in bytes.
    pub memory_limit: Option<usize>,
    /// Instruction ceiling per call.
    pub instruction_limit: Option<u64>,
    /// Whether a plugin's `pcall` may swallow a host panic.
    pub catch_rust_panics: Option<bool>,
    /// Whether plugins share one state, which would undo the per-plugin limits.
    pub shared: bool,
}

/// Which capabilities the host grants.
#[derive(Debug, Clone, PartialEq)]
pub struct CapabilityConfig {
    /// Capability names to grant as requested. Anything else is denied.
    pub allow: Vec<String>,
    /// Capabilities the host answers itself rather than the registry providing. Listing one
    /// here also grants it.
    pub callbacks: Vec<String>,
}

/// Signature policy.
#[derive(Debug, Clone, Copy, PartialEq, Eq, Structural)]
pub struct SignatureConfig {
    /// Refuse any plugin without a verified signature.
    pub required: bool,
}

impl Default for SandboxConfig {
    fn default() -> (r: SandboxConfig)
        ensures
            r.libs is None,
            r.deny is None,
            r.memory_limit == Some(67_108_864usize),
            r.instruction_limit == Some(50_000_000u64),
            r.catch_rust_panics is None,
            !r.shared,
    {
        SandboxConfig {
            libs: None,
            deny: None,
            memory_limit: Some(67_108_864),
            instruction_limit: Some(50_000_000),
            shared: false,
            catch_rust_panics: None,
        }
    }
}

impl Default for CapabilityConfig {
    fn default() -> (r: CapabilityConfig)
        ensures
            r.allow@.len() == 0,
            r.callbacks@.len() == 0,
    {
        CapabilityConfig { allow: Vec::new(), callbacks: Vec::new() }
    }
}

impl Default for SignatureConfig {
    fn default() -> (r: SignatureConfig)
        ensures
            !r.required,
    {
        SignatureConfig { required: false }
    }
}

impl Default for HostConfig {
    fn default() -> (r: HostConfig)
        ensures
            r@ == default_config(),
    {
        let allow: Vec<String> = Vec::new();
        let callbacks: Vec<String> = Vec::new();
        proof {
            assert(text::texts(allow@) =~= Seq::<Seq<char>>::empty());
            assert(text::texts(callbacks@) =~= Seq::<Seq<char>>::empty());
        }
        HostConfig {
            plugins: None,
            sandbox: SandboxConfig {
                libs: None,
                deny: None,
                memory_limit: Some(67_108_864),
                instruction_limit: Some(50_000_000),
                shared: false,
                catch_rust_panics: None,
            },
            capabilities: CapabilityConfig { allow, callbacks },
            signatures: SignatureConfig { required: false },
        }
    }
}

/// What a configuration is, apart from how it is stored.
pub struct ConfigModel {
    pub plugins: Option<Seq<char>>,
    pub libs: Option<Seq<Seq<char>>>,
    pub deny: Option<Seq<Seq<char>>>,
    pub memory_limit: Option<usize>,
    pub instruction_limit: Option<u64>,
    pub catch_rust_panics: Option<bool>,
    pub shared: bool,
    pub allow: Seq<Seq<char>>,
    pub callbacks: Seq<Seq<char>>,
    pub required: bool,
}

/// The view of an optional list of strings.
pub open spec fn opt_list(list: Option<Vec<String>>) -> Option<Seq<Seq<char>>> {
    match list {
        Some(list) => Some(text::texts(list@)),
        None => None,
    }
}

impl View for HostConfig {
    type V = ConfigModel;

    open spec fn view(&self) -> ConfigModel {
        ConfigModel {
            plugins: text::opt(self.plugins),
            libs: opt_list(self.sandbox.libs),
            deny: opt_list(self.sandbox.deny),
            memory_limit: self.sandbox.memory_limit,
            instruction_limit: self.sandbox.instruction_limit,
            catch_rust_panics: self.sandbox.catch_rust_panics,
            shared: self.sandbox.shared,
            allow: text::texts(self.capabilities.allow@),
            callbacks: text::texts(self.capabilities.callbacks@),
            required: self.signatures.required,
        }
    }
}

/// The configuration of a host that says nothing.
pub open spec fn default_config() -> ConfigModel {
    ConfigModel {
        plugins: None,
        libs: None,
        deny: None,
        memory_limit: Some(67_108_864),
        instruction_limit: Some(50_000_000),
        catch_rust_panics: None,
        shared: false,
        allow: Seq::empty(),
        callbacks: Seq::empty(),
        required: false,
    }
}

/// The libraries of the first `n` names, if each is that of one; else the first that is not.
pub open spec fn libs_upto(list: Seq<Seq<char>>, n: int) -> Result<Libs, Seq<char>>
    decreases n,
{
    if n <= 0 {
        Ok(no_libs())
    } else {
        match libs_upto(list, n - 1) {
            Err(unknown) => Err(unknown),
            Ok(libs) => if is_lib(list[n - 1]) {
                Ok(with_lib(libs, list[n - 1]))
            } else {
                Err(list[n - 1])
            },
        }
    }
}

proof fn unknown_stays(list: Seq<Seq<char>>, k: int, n: int)
    requires
        0 <= k <= n,
        libs_upto(list, k) is Err,
    ensures
        libs_upto(list, n) == libs_upto(list, k),
    decreases n,
{
    if k < n {
        unknown_stays(list, k, n - 1);
    }
}

/// The sandbox a configuration describes, given the libraries it names.
pub open spec fn configured(config: SandboxConfig, libs: Libs) -> SandboxModel {
    SandboxModel {
        libs,
        catch_panics: match config.catch_rust_panics {
            Some(on) => on,
            None => true,
        },
        memory: config.memory_limit,
        instructions: config.instruction_limit,
        denied: match config.deny {
            Some(list) => text::texts(list@),
            None => restricted_model().denied,
        },
    }
}

/// The libraries a configuration names: those of a restricted sandbox where it names none.
pub open spec fn configured_libs(config: SandboxConfig) -> Result<Libs, Seq<char>> {
    match config.libs {
        Some(list) => libs_upto(text::texts(list@), list@.len() as int),
        None => Ok(restricted_model().libs),
    }
}

impl SandboxConfig {
    /// The sandbox that the configuration describes.
    ///
    /// An unknown library is an error rather than a silent omission: quietly dropping a
    /// library a plugin needs produces a confusing runtime failure instead of a clear
    /// configuration one.
    pub fn to_sandbox(&self) -> (r: Result<Sandbox, String>)
        ensures
            match configured_libs(*self) {
                Ok(libs) => r matches Ok(sandbox) && sandbox@ == configured(*self, libs),
                Err(unknown) => r matches Err(message) && message@ == "unknown standard library `"@
                    + unknown + "`"@,
            },
    {
        let mut sandbox = Sandbox::restricted();
        match &self.libs {
            Some(list) => {
                let n: usize = list.len();
                let ghost views = text::texts(list@);
                let mut libs = Libs::none();
                let mut i: usize = 0;
                while i < n
                    invariant
                        n == list.len(),
                        i <= n,
                        views == text::texts(list@),
                        self.libs == Some(*list),
                        libs_upto(views, i as int) == Ok::<Libs, Seq<char>>(libs),
                    decreases n - i,
                {
                    let name = &list[i];
                    proof {
                        assert(views[i as int] == name@);
                    }
                    match libs.with(name.as_str()) {
                        Some(more) => {
                            libs = more;
                        },
                        None => {
                            proof {
                                unknown_stays(views, i + 1, n as int);
                            }
                            let mut out = "unknown standard library `".to_owned();
                            out.append(name.as_str());
                            out.append("`");
                            return Err(out);
                        },
                    }
                    i = i + 1;
                }
                sandbox = sandbox.libs(libs);
            },
            None => {},
        }
        match &self.deny {
            Some(list) => {
                sandbox = sandbox.deny(copy_list(list));
            },
            None => {},
        }
        match self.memory_limit {
            Some(bytes) => {
                sandbox = sandbox.memory_limit(bytes);
            },
            None => {},
        }
        match self.catch_rust_panics {
            Some(on) => {
                sandbox = sandbox.catch_rust_panics(on);
            },
            None => {},
        }
        match self.instruction_limit {
            Some(instructions) => {
                sandbox = sandbox.instruction_limit(instructions);
            },
            None => {},
        }
        Ok(sandbox)
    }
}

/// A configuration loads no library that it does not name.
pub proof fn only_named_libraries(list: Seq<Seq<char>>, n: int, libs: Libs)
    requires
        0 <= n <= list.len(),
        libs_upto(list, n) == Ok::<Libs, Seq<char>>(libs),
    ensures
        libs.io ==> list.contains("io"@),
        libs.os ==> list.contains("os"@),
        libs.debug ==> list.contains("debug"@),
        libs.package ==> list.contains("package"@),
        libs.string ==> list.contains("string"@),
        libs.table ==> list.contains("table"@),
        libs.math ==> list.contains("math"@),
        libs.coroutine ==> list.contains("coroutine"@),
    decreases n,
{
    if n > 0 {
        let less = libs_upto(list, n - 1)->Ok_0;
        only_named_libraries(list, n - 1, less);
        assert(list.contains(list[n - 1]));
    }
}

} // verus!
