//! Per-plugin state policy: standard libraries, memory and instruction limits.
//!
//! The defaults are deliberately tight: no `io`, `os` or `debug`, and the globals that reach
//! the filesystem or load shared objects are removed on top.

use crate::resolve::copy_list;
use crate::text;
use vstd::prelude::*;
use vstd::string::*;

verus! {

/// A set of standard libraries.
#[derive(Debug, Clone, Copy, PartialEq, Eq, Structural)]
pub struct Libs {
    pub string: bool,
    pub table: bool,
    pub math: bool,
    pub coroutine: bool,
    pub package: bool,
    pub io: bool,
    pub os: bool,
    pub debug: bool,
}

/// No library.
pub open spec fn no_libs() -> Libs {
    Libs {
        string: false,
        table: false,
        math: false,
        coroutine: false,
        package: false,
        io: false,
        os: false,
        debug: false,
    }
}

/// The libraries of every Lua version, without `io`, `os` and `debug`.
pub open spec fn core_set() -> Libs {
    Libs {
        string: true,
        table: true,
        math: true,
        coroutine: true,
        package: true,
        io: false,
        os: false,
        debug: false,
    }
}

/// Whether a text names a library.
pub open spec fn is_lib(name: Seq<char>) -> bool {
    ||| name == "string"@
    ||| name == "table"@
    ||| name == "math"@
    ||| name == "coroutine"@
    ||| name == "package"@
    ||| name == "io"@
    ||| name == "os"@
    ||| name == "debug"@
}

/// A set of libraries with one more, by name.
pub open spec fn with_lib(libs: Libs, name: Seq<char>) -> Libs {
    Libs {
        string: libs.string || name == "string"@,
        table: libs.table || name == "table"@,
        math: libs.math || name == "math"@,
        coroutine: libs.coroutine || name == "coroutine"@,
        package: libs.package || name == "package"@,
        io: libs.io || name == "io"@,
        os: libs.os || name == "os"@,
        debug: libs.debug || name == "debug"@,
    }
}

impl Libs {
    /// No library.
    pub fn none() -> (r: Libs)
        ensures
            r == no_libs(),
    {
        Libs {
            string: false,
            table: false,
            math: false,
            coroutine: false,
            package: false,
            io: false,
            os: false,
            debug: false,
        }
    }

    /// The set with one more library, if the name is that of one.
    pub fn with(&self, name: &str) -> (r: Option<Libs>)
        ensures
            r == if is_lib(name@) {
                Some(with_lib(*self, name@))
            } else {
                None
            },
    {
        let string = text::same(name, "string");
        let table = text::same(name, "table");
        let math = text::same(name, "math");
        let coroutine = text::same(name, "coroutine");
        let package = text::same(name, "package");
        let io = text::same(name, "io");
        let os = text::same(name, "os");
        let debug = text::same(name, "debug");
        if string || table || math || coroutine || package || io || os || debug {
            Some(
                Libs {
                    string: self.string || string,
                    table: self.table || table,
                    math: self.math || math,
                    coroutine: self.coroutine || coroutine,
                    package: self.package || package,
                    io: self.io || io,
                    os: self.os || os,
                    debug: self.debug || debug,
                },
            )
        } else {
            None
        }
    }
}

/// The libraries of every Lua version, without `io`, `os` and `debug`.
pub fn core_libs() -> (r: Libs)
    ensures
        r == core_set(),
{
    Libs {
        string: true,
        table: true,
        math: true,
        coroutine: true,
        package: true,
        io: false,
        os: false,
        debug: false,
    }
}

/// Globals removed by [`Sandbox::restricted`].
pub open spec fn restricted_deny_list() -> Seq<Seq<char>> {
    seq!["dofile"@, "loadfile"@, "package.loadlib"@]
}

/// Globals removed by [`Sandbox::restricted`]: `dofile` and `loadfile` reach the filesystem
/// whichever libraries are loaded, and `package.loadlib` loads an arbitrary shared object.
pub fn restricted_globals() -> (r: Vec<String>)
    ensures
        text::texts(r@) == restricted_deny_list(),
{
    let mut out: Vec<String> = Vec::new();
    out.push("dofile".to_owned());
    out.push("loadfile".to_owned());
    out.push("package.loadlib".to_owned());
    proof {
        assert(text::texts(out@) =~= restricted_deny_list());
    }
    out
}

/// Policy for states created for plugins.
#[derive(Debug, PartialEq, Eq)]
pub struct Sandbox {
    libs: Libs,
    catch_panics: bool,
    memory: Option<usize>,
    instructions: Option<u64>,
    denied: Vec<String>,
}

/// What a sandbox is, apart from how it is stored.
pub struct SandboxModel {
    pub libs: Libs,
    pub catch_panics: bool,
    pub memory: Option<usize>,
    pub instructions: Option<u64>,
    pub denied: Seq<Seq<char>>,
}

impl View for Sandbox {
    type V = SandboxModel;

    closed spec fn view(&self) -> SandboxModel {
        SandboxModel {
            libs: self.libs,
            catch_panics: self.catch_panics,
            memory: self.memory,
            instructions: self.instructions,
            denied: text::texts(self.denied@),
        }
    }
}

/// A restricted sandbox.
pub open spec fn restricted_model() -> SandboxModel {
    SandboxModel {
        libs: core_set(),
        catch_panics: true,
        memory: None,
        instructions: None,
        denied: restricted_deny_list(),
    }
}

impl Default for Sandbox {
    fn default() -> (r: Sandbox)
        ensures
            r@ == restricted_model(),
    {
        Sandbox::restricted()
    }
}

impl Clone for Sandbox {
    fn clone(&self) -> (r: Self)
        ensures
            r@ == self@,
    {
        Sandbox {
            libs: self.libs,
            catch_panics: self.catch_panics,
            memory: self.memory,
            instructions: self.instructions,
            denied: copy_list(&self.denied),
        }
    }
}

impl Sandbox {
    /// String, table, math, coroutine and package, with the deny list removed on top.
    pub fn restricted() -> (r: Sandbox)
        ensures
            r@ == restricted_model(),
    {
        Sandbox {
            libs: core_libs(),
            catch_panics: true,
            memory: None,
            instructions: None,
            denied: restricted_globals(),
        }
    }

    /// Adds `io` and `os`, and removes the deny list. Not for code you did not write.
    pub fn permissive() -> (r: Sandbox)
        ensures
            r@ == (SandboxModel {
                libs: Libs { io: true, os: true, ..core_set() },
                catch_panics: true,
                memory: None,
                instructions: None,
                denied: Seq::empty(),
            }),
    {
        let core = core_libs();
        let denied: Vec<String> = Vec::new();
        proof {
            assert(text::texts(denied@) =~= Seq::<Seq<char>>::empty());
        }
        Sandbox {
            libs: Libs { io: true, os: true, ..core },
            catch_panics: true,
            memory: None,
            instructions: None,
            denied,
        }
    }

    /// Sets exactly which standard libraries plugin states load.
    pub fn libs(self, libs: Libs) -> (r: Sandbox)
        ensures
            r@ == (SandboxModel { libs, ..self@ }),
    {
        Sandbox {
            libs,
            catch_panics: self.catch_panics,
            memory: self.memory,
            instructions: self.instructions,
            denied: self.denied,
        }
    }

    /// Which standard libraries this sandbox loads.
    pub fn loaded_libs(&self) -> (r: Libs)
        ensures
            r == self@.libs,
    {
        self.libs
    }

    /// Removes globals by dotted path after the libraries load.
    pub fn deny(self, paths: Vec<String>) -> (r: Sandbox)
        ensures
            r@ == (SandboxModel { denied: text::texts(paths@), ..self@ }),
    {
        Sandbox {
            libs: self.libs,
            catch_panics: self.catch_panics,
            memory: self.memory,
            instructions: self.instructions,
            denied: paths,
        }
    }

    /// The globals removed after the libraries load.
    pub fn denied(&self) -> (r: &Vec<String>)
        ensures
            text::texts(r@) == self@.denied,
    {
        &self.denied
    }

    /// Caps the memory one plugin's state may allocate.
    pub fn memory_limit(self, bytes: usize) -> (r: Sandbox)
        ensures
            r@ == (SandboxModel { memory: Some(bytes), ..self@ }),
    {
        Sandbox {
            libs: self.libs,
            catch_panics: self.catch_panics,
            memory: Some(bytes),
            instructions: self.instructions,
            denied: self.denied,
        }
    }

    /// The memory cap, if there is one.
    pub fn memory(&self) -> (r: Option<usize>)
        ensures
            r == self@.memory,
    {
        self.memory
    }

    /// Caps how long one plugin call may run, in VM instructions.
    pub fn instruction_limit(self, instructions: u64) -> (r: Sandbox)
        ensures
            r@ == (SandboxModel { instructions: Some(instructions), ..self@ }),
    {
        Sandbox {
            libs: self.libs,
            catch_panics: self.catch_panics,
            memory: self.memory,
            instructions: Some(instructions),
            denied: self.denied,
        }
    }

    /// The instruction cap, if there is one.
    pub fn instructions(&self) -> (r: Option<u64>)
        ensures
            r == self@.instructions,
    {
        self.instructions
    }

    /// Whether a plugin may catch a panic raised inside one of the host's callbacks.
    pub fn catch_rust_panics(self, enabled: bool) -> (r: Sandbox)
        ensures
            r@ == (SandboxModel { catch_panics: enabled, ..self@ }),
    {
        Sandbox {
            libs: self.libs,
            catch_panics: enabled,
            memory: self.memory,
            instructions: self.instructions,
            denied: self.denied,
        }
    }

    /// Whether a plugin may catch a panic of the host.
    pub fn catches_panics(&self) -> (r: bool)
        ensures
            r == self@.catch_panics,
    {
        self.catch_panics
    }
}

/// The steps to a global by its dotted path: the tables to go through, then the name.
pub fn global_steps(path: &str) -> (r: Vec<String>)
    ensures
        text::texts(r@) == text::pieces(path@, '.'),
{
    text::split(path, '.')
}

} // verus!
