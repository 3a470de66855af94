//! Class attributes: what the options on a class and its methods mean.

use crate::text;
use vstd::prelude::*;
use vstd::string::*;

verus! {

/// An option on a class, as it was written.
#[derive(Debug, PartialEq, Eq)]
pub enum ClassOption {
    /// `key = value`, where the value is a string literal or is not.
    Pair { key: String, value: Option<String> },
    /// Anything else.
    Bare,
}

/// Options on a class.
#[derive(Debug, PartialEq, Eq)]
pub struct ClassArgs {
    /// Name of the generated class-table handle.
    pub class: Option<String>,
    /// Name of the generated instance handle.
    pub handle: Option<String>,
    /// Class name used in conversion errors.
    pub lua_name: Option<String>,
}

/// What options on a class mean, apart from how they are stored.
pub struct ClassModel {
    pub class: Option<Seq<char>>,
    pub handle: Option<Seq<char>>,
    pub lua_name: Option<Seq<char>>,
}

impl View for ClassArgs {
    type V = ClassModel;

    open spec fn view(&self) -> ClassModel {
        ClassModel {
            class: text::opt(self.class),
            handle: text::opt(self.handle),
            lua_name: text::opt(self.lua_name),
        }
    }
}

/// What one more option makes of the options before it, or what is wrong with it.
pub open spec fn with_option(args: ClassModel, option: ClassOption) -> Result<ClassModel, Seq<char>> {
    match option {
        ClassOption::Bare => Err(
            "expected `class = \"..\"`, `handle = \"..\"` or `name = \"..\"`"@,
        ),
        ClassOption::Pair { key, value } => match value {
            None => Err("expected a string literal"@),
            Some(value) => if key@ == "class"@ {
                Ok(ClassModel { class: Some(value@), ..args })
            } else if key@ == "handle"@ {
                Ok(ClassModel { handle: Some(value@), ..args })
            } else if key@ == "name"@ {
                Ok(ClassModel { lua_name: Some(value@), ..args })
            } else {
                Err("unknown option: expected `class`, `handle` or `name`"@)
            },
        },
    }
}

/// What the first `n` options mean, or what is wrong with the first that is wrong, and where
/// it stands.
pub open spec fn options_upto(options: Seq<ClassOption>, n: int) -> Result<
    ClassModel,
    (int, Seq<char>),
>
    decreases n,
{
    if n <= 0 {
        Ok(ClassModel { class: None, handle: None, lua_name: None })
    } else {
        match options_upto(options, n - 1) {
            Err(fault) => Err(fault),
            Ok(args) => match with_option(args, options[n - 1]) {
                Ok(args) => Ok(args),
                Err(message) => Err((n - 1, message)),
            },
        }
    }
}

proof fn fault_stays(options: Seq<ClassOption>, k: int, n: int)
    requires
        0 <= k <= n,
        options_upto(options, k) is Err,
    ensures
        options_upto(options, n) == options_upto(options, k),
    decreases n,
{
    if k < n {
        fault_stays(options, k, n - 1);
    }
}

/// The view of options that were read.
pub open spec fn class_view(r: Result<ClassArgs, (usize, String)>) -> Result<
    ClassModel,
    (int, Seq<char>),
> {
    match r {
        Ok(args) => Ok(args@),
        Err((at, message)) => Err((at as int, message@)),
    }
}

impl ClassArgs {
    /// Reads the options on a class. An error says which option it is about.
    pub fn parse(options: &Vec<ClassOption>) -> (r: Result<ClassArgs, (usize, String)>)
        ensures
            class_view(r) == options_upto(options@, options@.len() as int),
    {
        let mut args = ClassArgs { class: None, handle: None, lua_name: None };
        let n: usize = options.len();
        let mut i: usize = 0;
        while i < n
            invariant
                n == options.len(),
                i <= n,
                options_upto(options@, i as int) == Ok::<ClassModel, (int, Seq<char>)>(args@),
            decreases n - i,
        {
            let ghost before = args@;
            match &options[i] {
                ClassOption::Bare => {
                    proof {
                        fault_stays(options@, i + 1, n as int);
                    }
                    return Err(
                        (
                            i,
                            "expected `class = \"..\"`, `handle = \"..\"` or `name = \"..\"`".to_owned(),
                        ),
                    );
                },
                ClassOption::Pair { key, value } => match value {
                    None => {
                        proof {
                            fault_stays(options@, i + 1, n as int);
                        }
                        return Err((i, "expected a string literal".to_owned()));
                    },
                    Some(value) => {
                        if text::same(key.as_str(), "class") {
                            args.class = Some(value.clone());
                        } else if text::same(key.as_str(), "handle") {
                            args.handle = Some(value.clone());
                        } else if text::same(key.as_str(), "name") {
                            args.lua_name = Some(value.clone());
                        } else {
                            proof {
                                fault_stays(options@, i + 1, n as int);
                            }
                            return Err(
                                (
                                    i,
                                    "unknown option: expected `class`, `handle` or `name`".to_owned(),
                                ),
                            );
                        }
                        proof {
                            assert(with_option(before, options@[i as int]) == Ok::<
                                ClassModel,
                                Seq<char>,
                            >(args@));
                        }
                    },
                },
            }
            i = i + 1;
        }
        Ok(args)
    }
}

/// An option on a method, as it was written.
#[derive(Debug, PartialEq, Eq)]
pub enum MethodOption {
    /// `name = value`, where the value is a string literal or is not.
    Name(Option<String>),
    Optional,
    Field,
    Function,
    /// Anything else.
    Unknown,
}

/// Options on a method.
#[derive(Debug, PartialEq, Eq)]
pub struct MethodOpts {
    /// Overrides the Lua key this method resolves to.
    pub name: Option<String>,
    /// A missing Lua method yields nothing instead of an error.
    pub optional: bool,
    /// Read or write a field rather than calling a function.
    pub field: bool,
    /// Call with dot syntax rather than colon syntax.
    pub function: bool,
}

/// What options on a method mean, apart from how they are stored.
pub struct MethodModel {
    pub name: Option<Seq<char>>,
    pub optional: bool,
    pub field: bool,
    pub function: bool,
}

impl View for MethodOpts {
    type V = MethodModel;

    open spec fn view(&self) -> MethodModel {
        MethodModel {
            name: text::opt(self.name),
            optional: self.optional,
            field: self.field,
            function: self.function,
        }
    }
}

/// What the first `n` options of a method mean, or what is wrong with the first that is
/// wrong, and where it stands.
pub open spec fn method_upto(options: Seq<MethodOption>, n: int) -> Result<
    MethodModel,
    (int, Seq<char>),
>
    decreases n,
{
    if n <= 0 {
        Ok(MethodModel { name: None, optional: false, field: false, function: false })
    } else {
        match method_upto(options, n - 1) {
            Err(fault) => Err(fault),
            Ok(opts) => match options[n - 1] {
                MethodOption::Name(Some(name)) => Ok(MethodModel { name: Some(name@), ..opts }),
                MethodOption::Name(None) => Err((n - 1, "`name` takes a string literal"@)),
                MethodOption::Optional => Ok(MethodModel { optional: true, ..opts }),
                MethodOption::Field => Ok(MethodModel { field: true, ..opts }),
                MethodOption::Function => Ok(MethodModel { function: true, ..opts }),
                MethodOption::Unknown => Err(
                    (
                        n - 1,
                        "unknown option: expected `name`, `optional`, `field` or `function`"@,
                    ),
                ),
            },
        }
    }
}

/// What the options of a method mean: `field` and `function` exclude each other, which is an
/// error of them all.
pub open spec fn method_options(options: Seq<MethodOption>) -> Result<MethodModel, (int, Seq<char>)> {
    match method_upto(options, options.len() as int) {
        Err(fault) => Err(fault),
        Ok(opts) => if opts.field && opts.function {
            Err((options.len() as int, "`field` and `function` are mutually exclusive"@))
        } else {
            Ok(opts)
        },
    }
}

proof fn method_fault_stays(options: Seq<MethodOption>, k: int, n: int)
    requires
        0 <= k <= n,
        method_upto(options, k) is Err,
    ensures
        method_upto(options, n) == method_upto(options, k),
    decreases n,
{
    if k < n {
        method_fault_stays(options, k, n - 1);
    }
}

/// The view of options that were read.
pub open spec fn method_view(r: Result<MethodOpts, (usize, String)>) -> Result<
    MethodModel,
    (int, Seq<char>),
> {
    match r {
        Ok(opts) => Ok(opts@),
        Err((at, message)) => Err((at as int, message@)),
    }
}

impl MethodOpts {
    /// Reads the options on a method. An error says which option it is about, or by the
    /// number of options that it is about all of them.
    pub fn parse(options: &Vec<MethodOption>) -> (r: Result<MethodOpts, (usize, String)>)
        ensures
            method_view(r) == method_options(options@),
    {
        let mut opts = MethodOpts { name: None, optional: false, field: false, function: false };
        let n: usize = options.len();
        let mut i: usize = 0;
        while i < n
            invariant
                n == options.len(),
                i <= n,
                method_upto(options@, i as int) == Ok::<MethodModel, (int, Seq<char>)>(opts@),
            decreases n - i,
        {
            match &options[i] {
                MethodOption::Name(value) => match value {
                    Some(value) => {
                        opts.name = Some(value.clone());
                    },
                    None => {
                        proof {
                            method_fault_stays(options@, i + 1, n as int);
                        }
                        return Err((i, "`name` takes a string literal".to_owned()));
                    },
                },
                MethodOption::Optional => {
                    opts.optional = true;
                },
                MethodOption::Field => {
                    opts.field = true;
                },
                MethodOption::Function => {
                    opts.function = true;
                },
                MethodOption::Unknown => {
                    proof {
                        method_fault_stays(options@, i + 1, n as int);
                    }
                    return Err(
                        (
                            i,
                            "unknown option: expected `name`, `optional`, `field` or `function`".to_owned(),
                        ),
                    );
                },
            }
            i = i + 1;
        }
        if opts.field && opts.function {
            return Err((n, "`field` and `function` are mutually exclusive".to_owned()));
        }
        Ok(opts)
    }
}

/// How a method reaches into the Lua object.
#[derive(Debug, Clone, Copy, PartialEq, Eq, Structural)]
pub enum MethodKind {
    /// `obj:name(..)`: the object is passed as the first argument.
    Method { optional: bool },
    /// `obj.name(..)`: nothing implicit is passed.
    Function { optional: bool },
    /// `obj.name` read.
    FieldGet,
    /// `obj.name = value` write.
    FieldSet,
}

/// How a method reaches into the Lua object, or what is wrong with it. Class-level functions
/// have no receiver to pass, so they are always dot calls.
pub open spec fn classified(
    opts: MethodModel,
    takes_self: bool,
    arg_count: usize,
    ident: Seq<char>,
) -> Result<MethodKind, Seq<char>> {
    if opts.field {
        if !takes_self {
            Err(
                "`"@ + ident
                    + "` is marked `field` but takes no `&self`: fields live on instances"@,
            )
        } else if opts.optional {
            Err(
                "`optional` applies to methods, not fields: read a field as `Result<Option<T>>` instead"@,
            )
        } else if arg_count == 0 {
            Ok(MethodKind::FieldGet)
        } else if arg_count == 1 {
            Ok(MethodKind::FieldSet)
        } else {
            Err("a `field` method takes no arguments (get) or exactly one (set)"@)
        }
    } else if !takes_self || opts.function {
        Ok(MethodKind::Function { optional: opts.optional })
    } else {
        Ok(MethodKind::Method { optional: opts.optional })
    }
}

/// The view of a classification.
pub open spec fn kind_view(r: Result<MethodKind, String>) -> Result<MethodKind, Seq<char>> {
    match r {
        Ok(kind) => Ok(kind),
        Err(message) => Err(message@),
    }
}

impl MethodKind {
    /// How a method reaches into the Lua object.
    pub fn classify(opts: &MethodOpts, takes_self: bool, arg_count: usize, ident: &str) -> (r:
        Result<MethodKind, String>)
        ensures
            kind_view(r) == classified(opts@, takes_self, arg_count, ident@),
    {
        if opts.field {
            if !takes_self {
                let mut out = "`".to_owned();
                out.append(ident);
                out.append("` is marked `field` but takes no `&self`: fields live on instances");
                return Err(out);
            }
            if opts.optional {
                return Err(
                    "`optional` applies to methods, not fields: read a field as `Result<Option<T>>` instead".to_owned(),
                );
            }
            if arg_count == 0 {
                return Ok(MethodKind::FieldGet);
            }
            if arg_count == 1 {
                return Ok(MethodKind::FieldSet);
            }
            return Err(
                "a `field` method takes no arguments (get) or exactly one (set)".to_owned(),
            );
        }
        if !takes_self || opts.function {
            return Ok(MethodKind::Function { optional: opts.optional });
        }
        Ok(MethodKind::Method { optional: opts.optional })
    }

    /// Whether the Lua table must define this key for the handle to be valid.
    pub fn is_required(&self) -> (r: bool)
        ensures
            r == (*self == (MethodKind::Method { optional: false }) || *self
                == (MethodKind::Function { optional: false })),
    {
        match self {
            MethodKind::Method { optional } => !*optional,
            MethodKind::Function { optional } => !*optional,
            _ => false,
        }
    }

    /// The Lua key this method resolves to when no name is given.
    pub fn default_name(&self, ident: &str) -> (r: String)
        ensures
            r@ == match (*self, text::after(ident@, "set_"@)) {
                (MethodKind::FieldSet, Some(rest)) => rest,
                _ => ident@,
            },
    {
        match self {
            MethodKind::FieldSet => match text::strip_prefix(ident, "set_") {
                Some(rest) => rest,
                None => ident.to_owned(),
            },
            _ => ident.to_owned(),
        }
    }
}

} // verus!
