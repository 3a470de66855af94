//! What holds at the borders: values that cross to and from Lua and other languages, and the
//! options of a class.

use crate::binding::{class_of, python_kind_of, ruby_kind_of, ForeignKind, PythonProbe, RubyProbe};
use crate::class::{
    classified, method_options, method_upto, options_upto, with_option, ClassModel, ClassOption,
    MethodKind, MethodModel, MethodOption,
};
use crate::error::Error;
use crate::lua::{
    array_values, entry_names, is_array, kept_after, key_name, last_of, lua_entries, lua_items,
    lua_of, put, table_values, value_of_lua, KeyModel, LuaModel,
};
use crate::names;
use crate::text;
use crate::value::ValueModel;
use vstd::prelude::*;
use vstd::string::*;

verus! {

/// What Lua gives is taken as it is: each plain value as the same value, a text that cannot be read
/// as an empty one, a function as one, and what has no counterpart as nil.
pub proof fn plain_values_cross_as_they_are(lua: LuaModel)
    ensures
        lua is Nil ==> value_of_lua(lua) is Nil,
        lua matches LuaModel::Boolean(b) ==> value_of_lua(lua) == ValueModel::Bool(b),
        lua matches LuaModel::Integer(n) ==> value_of_lua(lua) == ValueModel::Int(n),
        lua matches LuaModel::Number(bits) ==> value_of_lua(lua) == ValueModel::Float(bits),
        lua matches LuaModel::Text(Some(s)) ==> value_of_lua(lua) == ValueModel::Str(s),
        lua matches LuaModel::Text(None) ==> value_of_lua(lua) == ValueModel::Str(Seq::empty()),
        lua is Function ==> value_of_lua(lua) is Function,
        lua is Opaque ==> value_of_lua(lua) is Nil,
{
}

/// What goes to Lua goes as it is, and a function goes as the one that came last, once.
pub proof fn plain_values_go_as_they_are(value: ValueModel, had: Option<u64>)
    ensures
        value is Nil ==> lua_of(value, had) == (Some(LuaModel::Nil), had),
        value matches ValueModel::Bool(b) ==> lua_of(value, had) == (Some(LuaModel::Boolean(b)), had),
        value matches ValueModel::Int(n) ==> lua_of(value, had) == (Some(LuaModel::Integer(n)), had),
        value matches ValueModel::Float(bits) ==> lua_of(value, had) == (
            Some(LuaModel::Number(bits)),
            had,
        ),
        value matches ValueModel::Str(s) ==> lua_of(value, had) == (
            Some(LuaModel::Text(Some(s))),
            had,
        ),
        value is Function ==> match had {
            Some(handle) => lua_of(value, had) == (
                Some(LuaModel::Function(handle)),
                None::<u64>,
            ),
            None => lua_of(value, had).0 is None,
        },
        forall|handle: u64| #[trigger]
            kept_after(LuaModel::Function(handle), had) == Some(handle),
{
}

/// Whether a table has a value under a number.
pub open spec fn has_number(pairs: Seq<(KeyModel, LuaModel)>, k: int) -> bool {
    exists|i: int|
        0 <= i < pairs.len() && ((#[trigger] pairs[i]).0 matches KeyModel::Integer(n) && n == k)
}

proof fn last_under(pairs: Seq<(KeyModel, LuaModel)>, k: int)
    ensures
        last_of(pairs, k) >= 0 <==> has_number(pairs, k),
        last_of(pairs, k) >= 0 ==> {
            &&& last_of(pairs, k) < pairs.len()
            &&& pairs[last_of(pairs, k)].0 matches KeyModel::Integer(n) && n == k
            &&& forall|i: int|
                last_of(pairs, k) < i < pairs.len() ==> !((#[trigger] pairs[i]).0
                    matches KeyModel::Integer(n) && n == k)
        },
        last_of(pairs, k) >= -1,
    decreases pairs.len(),
{
    if pairs.len() > 0 {
        let less = pairs.drop_last();
        last_under(less, k);
        let n = pairs.len() - 1;
        if pairs[n].0 matches KeyModel::Integer(m) && m == k {
            assert(has_number(pairs, k));
        } else {
            if has_number(less, k) {
                let i = choose|i: int|
                    0 <= i < less.len() && ((#[trigger] less[i]).0 matches KeyModel::Integer(m) && m
                        == k);
                assert(pairs[i] == less[i]);
                assert(pairs[last_of(less, k)] == less[last_of(less, k)]);
                assert forall|i: int| last_of(less, k) < i < pairs.len() implies !((
                #[trigger] pairs[i]).0 matches KeyModel::Integer(m) && m == k) by {
                    if i < n {
                        assert(pairs[i] == less[i]);
                    }
                }
            }
            if has_number(pairs, k) {
                let i = choose|i: int|
                    0 <= i < pairs.len() && ((#[trigger] pairs[i]).0 matches KeyModel::Integer(m) && m
                        == k);
                assert(less[i] == pairs[i]);
            }
        }
    }
}

proof fn items_upto(pairs: Seq<(KeyModel, LuaModel)>, n: int)
    requires
        0 <= n <= pairs.len(),
        forall|k: int| 1 <= k <= pairs.len() ==> #[trigger] last_of(pairs, k) >= 0,
    ensures
        array_values(pairs, n).len() == n,
        forall|k: int|
            0 <= k < n ==> #[trigger] array_values(pairs, n)[k] == value_of_lua(
                pairs[last_of(pairs, k + 1)].1,
            ),
    decreases n,
{
    if n > 0 {
        items_upto(pairs, n - 1);
        last_under(pairs, n);
        assert(last_of(pairs, n) >= 0);
    }
}

/// A table is a list exactly when it is not empty and has a value under each number from one up to
/// as many as it has pairs; the items stand in the order of their numbers.
pub proof fn a_table_of_numbers_is_a_list(pairs: Seq<(KeyModel, LuaModel)>)
    ensures
        value_of_lua(LuaModel::Table(pairs)) is List <==> pairs.len() > 0 && forall|k: int|
            1 <= k <= pairs.len() ==> #[trigger] has_number(pairs, k),
        value_of_lua(LuaModel::Table(pairs)) is List || value_of_lua(LuaModel::Table(pairs))
            is Mapping,
        value_of_lua(LuaModel::Table(pairs)) matches ValueModel::List(items) ==> items.len()
            == pairs.len() && forall|k: int|
            0 <= k < items.len() ==> exists|i: int|
                {
                    &&& 0 <= i < pairs.len()
                    &&& (#[trigger] pairs[i]).0 matches KeyModel::Integer(n) && n == k + 1
                    &&& #[trigger] items[k] == value_of_lua(pairs[i].1)
                },
{
    assert(is_array(pairs) <==> pairs.len() > 0 && forall|k: int|
        1 <= k <= pairs.len() ==> #[trigger] has_number(pairs, k)) by {
        if is_array(pairs) {
            assert forall|k: int| 1 <= k <= pairs.len() implies #[trigger] has_number(pairs, k) by {
                last_under(pairs, k);
                assert(last_of(pairs, k) >= 0);
            }
        }
        if forall|k: int| 1 <= k <= pairs.len() ==> #[trigger] has_number(pairs, k) {
            assert forall|k: int| 1 <= k <= pairs.len() implies #[trigger] last_of(pairs, k)
                >= 0 by {
                last_under(pairs, k);
                assert(has_number(pairs, k));
            }
        }
    }
    if is_array(pairs) {
        items_upto(pairs, pairs.len() as int);
        let items = array_values(pairs, pairs.len() as int);
        assert forall|k: int| 0 <= k < items.len() implies exists|i: int|
            {
                &&& 0 <= i < pairs.len()
                &&& (#[trigger] pairs[i]).0 matches KeyModel::Integer(n) && n == k + 1
                &&& #[trigger] items[k] == value_of_lua(pairs[i].1)
            } by {
            last_under(pairs, k + 1);
            assert(last_of(pairs, k + 1) >= 0);
            let i = last_of(pairs, k + 1);
            assert(items[k] == value_of_lua(pairs[i].1));
        }
    }
}

/// What stands under a name among entries.
pub open spec fn stands_under(
    entries: Seq<(Seq<char>, ValueModel)>,
    name: Seq<char>,
    value: ValueModel,
) -> bool {
    entries.contains((name, value))
}

proof fn slot_parts(list: Seq<Seq<char>>, name: Seq<char>)
    requires
        names::rising(list),
    ensures
        0 <= names::slot(list, name) <= list.len(),
        forall|i: int|
            0 <= i < names::slot(list, name) ==> names::before(#[trigger] list[i], name),
        forall|i: int|
            names::slot(list, name) <= i < list.len() ==> !names::before(#[trigger] list[i], name),
    decreases list.len(),
{
    if list.len() > 0 {
        let less = list.drop_last();
        assert forall|i: int, j: int| 0 <= i < j < less.len() implies names::before(
            #[trigger] less[i],
            #[trigger] less[j],
        ) by {
            assert(less[i] == list[i] && less[j] == list[j]);
        }
        slot_parts(less, name);
        let at = names::slot(list, name);
        let n = list.len() - 1;
        assert forall|i: int| 0 <= i < at implies names::before(#[trigger] list[i], name) by {
            if i < n {
                assert(list[i] == less[i]);
            }
        }
        assert forall|i: int| at <= i < list.len() implies !names::before(
            #[trigger] list[i],
            name,
        ) by {
            if i < n {
                assert(list[i] == less[i]);
            } else if names::slot(less, name) < n && names::before(list[n], name) {
                let k = names::slot(less, name);
                assert(!names::before(less[k], name));
                assert(names::before(list[k], list[n]));
                names::before_transitive(list[k], list[n], name);
            }
        }
    }
}

/// Putting a value under a name changes what stands under that name, and nothing else.
pub proof fn putting_changes_one_name(
    entries: Seq<(Seq<char>, ValueModel)>,
    name: Seq<char>,
    value: ValueModel,
    other: Seq<char>,
    held: ValueModel,
)
    requires
        names::rising(entry_names(entries)),
    ensures
        names::rising(entry_names(put(entries, name, value))),
        stands_under(put(entries, name, value), other, held) <==> if other == name {
            held == value
        } else {
            stands_under(entries, other, held)
        },
{
    let list = entry_names(entries);
    let at = names::slot(list, name);
    slot_parts(list, name);
    let after = put(entries, name, value);
    let named = entry_names(after);
    if at < entries.len() && entries[at].0 == name {
        assert(named =~= list);
        assert(after[at] == (name, value));
        if stands_under(after, other, held) {
            let k = choose|k: int| 0 <= k < after.len() && after[k] == (other, held);
            if k != at {
                assert(entries[k] == after[k]);
                names_differ(list, k, at);
            }
        }
        if other != name && stands_under(entries, other, held) {
            let k = choose|k: int| 0 <= k < entries.len() && entries[k] == (other, held);
            assert(after[k] == entries[k]);
        }
    } else {
        assert(named =~= list.insert(at, name));
        assert forall|i: int, j: int| 0 <= i < j < named.len() implies names::before(
            #[trigger] named[i],
            #[trigger] named[j],
        ) by {
            if j == at {
                assert(named[i] == list[i]);
            } else if i == at {
                assert(named[j] == list[j - 1]);
                assert(!names::before(list[j - 1], name));
                names::before_total(list[j - 1], name);
                if list[j - 1] == name {
                    if j - 1 > at {
                        assert(names::before(list[at], list[j - 1]));
                    }
                    assert(list[at] == entries[at].0);
                }
            } else {
                let x = if i < at {
                    i
                } else {
                    i - 1
                };
                let y = if j < at {
                    j
                } else {
                    j - 1
                };
                assert(named[i] == list[x] && named[j] == list[y]);
            }
        }
        assert(after[at] == (name, value));
        if stands_under(after, other, held) {
            let k = choose|k: int| 0 <= k < after.len() && after[k] == (other, held);
            if k < at {
                assert(entries[k] == after[k]);
                assert(list[k] == other);
                if other == name {
                    names::before_irreflexive(name);
                }
            } else if k > at {
                assert(entries[k - 1] == after[k]);
                assert(list[k - 1] == other);
                if other == name {
                    if k - 1 > at {
                        assert(names::before(list[at], list[k - 1]));
                    }
                    assert(list[at] == entries[at].0);
                }
            }
        }
        if other != name && stands_under(entries, other, held) {
            let k = choose|k: int| 0 <= k < entries.len() && entries[k] == (other, held);
            if k < at {
                assert(after[k] == entries[k]);
            } else {
                assert(after[k + 1] == entries[k]);
            }
        }
    }
}

proof fn names_differ(list: Seq<Seq<char>>, i: int, j: int)
    requires
        names::rising(list),
        0 <= i < list.len(),
        0 <= j < list.len(),
        i != j,
    ensures
        list[i] != list[j],
{
    names::before_irreflexive(list[i]);
    if i < j {
        assert(names::before(list[i], list[j]));
    } else {
        assert(names::before(list[j], list[i]));
    }
}

/// A table that is no list becomes a mapping with a value under the name of each of its keys, the
/// last where two keys have one name, and nothing else.
pub proof fn a_table_keeps_what_its_keys_hold(
    pairs: Seq<(KeyModel, LuaModel)>,
    name: Seq<char>,
    value: ValueModel,
)
    ensures
        names::rising(entry_names(table_values(pairs))),
        stands_under(table_values(pairs), name, value) <==> exists|i: int|
            {
                &&& 0 <= i < pairs.len()
                &&& key_name((#[trigger] pairs[i]).0) == name
                &&& value_of_lua(pairs[i].1) == value
                &&& forall|j: int|
                    i < j < pairs.len() ==> key_name((#[trigger] pairs[j]).0) != name
            },
    decreases pairs.len(),
{
    if pairs.len() > 0 {
        let less = pairs.drop_last();
        let last = pairs.last();
        let n = pairs.len() - 1;
        a_table_keeps_what_its_keys_hold(less, name, value);
        putting_changes_one_name(
            table_values(less),
            key_name(last.0),
            value_of_lua(last.1),
            name,
            value,
        );
        if stands_under(table_values(pairs), name, value) {
            if name == key_name(last.0) {
                assert(key_name(pairs[n].0) == name);
            } else {
                let i = choose|i: int|
                    {
                        &&& 0 <= i < less.len()
                        &&& key_name((#[trigger] less[i]).0) == name
                        &&& value_of_lua(less[i].1) == value
                        &&& forall|j: int|
                            i < j < less.len() ==> key_name((#[trigger] less[j]).0) != name
                    };
                assert(pairs[i] == less[i]);
                assert forall|j: int| i < j < pairs.len() implies key_name((#[trigger] pairs[j]).0)
                    != name by {
                    if j < n {
                        assert(pairs[j] == less[j]);
                    }
                }
            }
        }
        if exists|i: int|
            {
                &&& 0 <= i < pairs.len()
                &&& key_name((#[trigger] pairs[i]).0) == name
                &&& value_of_lua(pairs[i].1) == value
                &&& forall|j: int|
                    i < j < pairs.len() ==> key_name((#[trigger] pairs[j]).0) != name
            } {
            let i = choose|i: int|
                {
                    &&& 0 <= i < pairs.len()
                    &&& key_name((#[trigger] pairs[i]).0) == name
                    &&& value_of_lua(pairs[i].1) == value
                    &&& forall|j: int|
                        i < j < pairs.len() ==> key_name((#[trigger] pairs[j]).0) != name
                };
            if i < n {
                assert(key_name(pairs[n].0) != name);
                assert(less[i] == pairs[i]);
                assert forall|j: int| i < j < less.len() implies key_name((#[trigger] less[j]).0)
                    != name by {
                    assert(less[j] == pairs[j]);
                }
            }
        }
    } else {
        assert(entry_names(table_values(pairs)) =~= Seq::<Seq<char>>::empty());
    }
}

/// A key is named by its number, or by its text.
pub proof fn keys_are_named_by_what_they_are(key: KeyModel)
    ensures
        key matches KeyModel::Integer(n) ==> key_name(key) == if n >= 0 {
            text::decimal(n as nat)
        } else {
            "-"@ + text::decimal((-n) as nat)
        },
        key matches KeyModel::Text(Some(s)) ==> key_name(key) == s,
        key matches KeyModel::Other(s) ==> key_name(key) == s,
{
}

/// An option of a class sets what it names and leaves the rest; one that names nothing known, or
/// gives no text, is refused.
pub proof fn an_option_sets_what_it_names(args: ClassModel, key: String, value: Option<String>)
    ensures
        match with_option(args, ClassOption::Pair { key, value }) {
            Ok(after) => {
                &&& value matches Some(given)
                &&& ({
                    ||| key@ == "class"@ && after == (ClassModel { class: Some(given@), ..args })
                    ||| key@ == "handle"@ && after == (ClassModel { handle: Some(given@), ..args })
                    ||| key@ == "name"@ && after == (ClassModel { lua_name: Some(given@), ..args })
                })
            },
            Err(_) => value is None || (key@ != "class"@ && key@ != "handle"@ && key@ != "name"@),
        },
        with_option(args, ClassOption::Bare) is Err,
{
}

/// The options of a class are read in their order up to the first that is refused, and that one's
/// place is told.
pub proof fn class_options_are_read_in_order(options: Seq<ClassOption>, n: int)
    requires
        0 < n <= options.len(),
    ensures
        match options_upto(options, n) {
            Ok(after) => options_upto(options, n - 1) matches Ok(args) && with_option(
                args,
                options[n - 1],
            ) == Ok::<ClassModel, Seq<char>>(after),
            Err((at, message)) => {
                ||| options_upto(options, n - 1) == Err::<ClassModel, (int, Seq<char>)>((at, message))
                ||| at == n - 1 && (options_upto(options, n - 1) matches Ok(args) && with_option(
                    args,
                    options[n - 1],
                ) == Err::<ClassModel, Seq<char>>(message))
            },
        },
        options_upto(options, 0) == Ok::<ClassModel, (int, Seq<char>)>(
            ClassModel { class: None, handle: None, lua_name: None },
        ),
{
}

proof fn flags_upto(options: Seq<MethodOption>, n: int)
    requires
        0 <= n <= options.len(),
    ensures
        method_upto(options, n) matches Ok(opts) ==> {
            &&& opts.optional <==> exists|i: int| 0 <= i < n && (#[trigger] options[i]) is Optional
            &&& opts.field <==> exists|i: int| 0 <= i < n && (#[trigger] options[i]) is Field
            &&& opts.function <==> exists|i: int| 0 <= i < n && (#[trigger] options[i]) is Function
            &&& opts.name is Some <==> exists|i: int| 0 <= i < n && (#[trigger] options[i]) is Name
            &&& forall|i: int|
                0 <= i < n ==> !(#[trigger] options[i] is Unknown) && options[i] != MethodOption::Name(
                    None,
                )
        },
        method_upto(options, n) is Err ==> exists|i: int|
            0 <= i < n && (#[trigger] options[i] is Unknown || options[i] == MethodOption::Name(
                None,
            )),
    decreases n,
{
    if n > 0 {
        flags_upto(options, n - 1);
        let last = options[n - 1];
        assert(last is Unknown || !(last is Unknown));
    }
}

/// The options of a method say what it is: each flag is set exactly where it is written, and the
/// options are refused where one is not known, a name has no text, or it is to be a field and a
/// function at once.
pub proof fn method_options_say_what_it_is(options: Seq<MethodOption>)
    ensures
        method_options(options) matches Ok(opts) ==> {
            &&& opts.optional <==> exists|i: int|
                0 <= i < options.len() && (#[trigger] options[i]) is Optional
            &&& opts.field <==> exists|i: int|
                0 <= i < options.len() && (#[trigger] options[i]) is Field
            &&& opts.function <==> exists|i: int|
                0 <= i < options.len() && (#[trigger] options[i]) is Function
            &&& opts.name is Some <==> exists|i: int|
                0 <= i < options.len() && (#[trigger] options[i]) is Name
            &&& !(opts.field && opts.function)
        },
        method_options(options) is Ok <==> {
            &&& forall|i: int|
                0 <= i < options.len() ==> !(#[trigger] options[i] is Unknown) && options[i]
                    != MethodOption::Name(None)
            &&& !((exists|i: int| 0 <= i < options.len() && (#[trigger] options[i]) is Field) && (
            exists|i: int| 0 <= i < options.len() && (#[trigger] options[i]) is Function))
        },
{
    flags_upto(options, options.len() as int);
}

/// A method is what its options and its signature make it: a field only where it has a receiver,
/// is not optional and takes one argument at most, a function where it has none or says so, and a
/// method otherwise.
pub proof fn a_method_is_what_it_is_made(
    opts: MethodModel,
    takes_self: bool,
    arg_count: usize,
    ident: Seq<char>,
)
    ensures
        match classified(opts, takes_self, arg_count, ident) {
            Ok(MethodKind::FieldGet) => opts.field && takes_self && !opts.optional && arg_count == 0,
            Ok(MethodKind::FieldSet) => opts.field && takes_self && !opts.optional && arg_count == 1,
            Ok(MethodKind::Function { optional }) => !opts.field && (opts.function || !takes_self)
                && optional == opts.optional,
            Ok(MethodKind::Method { optional }) => !opts.field && !opts.function && takes_self
                && optional == opts.optional,
            Err(_) => opts.field && (!takes_self || opts.optional || arg_count > 1),
        },
{
}

/// A Python value is taken for the first of these that it is: none, a truth value before a number,
/// a whole number before another, a text, a mapping, a list; anything else is not supported.
pub proof fn python_values_are_told_apart(probe: PythonProbe)
    ensures
        match python_kind_of(probe) {
            ForeignKind::Nil => probe.is_none,
            ForeignKind::Bool => probe.is_bool && !probe.is_none,
            ForeignKind::Int => probe.is_int && !probe.is_bool && !probe.is_none,
            ForeignKind::Float => probe.is_float && !probe.is_int && !probe.is_bool
                && !probe.is_none,
            ForeignKind::Str => probe.is_str && !probe.is_float && !probe.is_int && !probe.is_bool
                && !probe.is_none,
            ForeignKind::Mapping => probe.is_dict && !probe.is_str && !probe.is_float
                && !probe.is_int && !probe.is_bool && !probe.is_none,
            ForeignKind::List => (probe.is_list || probe.is_tuple) && !probe.is_dict && !probe.is_str
                && !probe.is_float && !probe.is_int && !probe.is_bool && !probe.is_none,
            ForeignKind::Unsupported => !(probe.is_none || probe.is_bool || probe.is_int
                || probe.is_float || probe.is_str || probe.is_dict || probe.is_list
                || probe.is_tuple),
        },
{
}

/// A Ruby value is taken for the first of these that it is: nil, a truth value, a whole number, a
/// number, a text or a symbol, an array, a hash; anything else is not supported.
pub proof fn ruby_values_are_told_apart(probe: RubyProbe)
    ensures
        ({
            let truth = probe.is_true || probe.is_false;
            let text = probe.is_string || probe.is_symbol;
            match ruby_kind_of(probe) {
                ForeignKind::Nil => probe.is_nil,
                ForeignKind::Bool => truth && !probe.is_nil,
                ForeignKind::Int => probe.is_integer && !truth && !probe.is_nil,
                ForeignKind::Float => probe.is_float && !probe.is_integer && !truth && !probe.is_nil,
                ForeignKind::Str => text && !probe.is_float && !probe.is_integer && !truth
                    && !probe.is_nil,
                ForeignKind::List => probe.is_array && !text && !probe.is_float && !probe.is_integer
                    && !truth && !probe.is_nil,
                ForeignKind::Mapping => probe.is_hash && !probe.is_array && !text && !probe.is_float
                    && !probe.is_integer && !truth && !probe.is_nil,
                ForeignKind::Unsupported => !(probe.is_nil || truth || probe.is_integer
                    || probe.is_float || text || probe.is_array || probe.is_hash),
            }
        }),
{
}

/// Each error has its own class, but those that have none.
pub proof fn errors_have_their_class(error: Error)
    ensures
        class_of(error) is UnknownPlugin <==> error is UnknownPlugin,
        class_of(error) is Plugin <==> error is Plugin,
        class_of(error) is Lua <==> error is Lua,
        class_of(error) is Io <==> error is Io,
        class_of(error) is Config <==> error is Config,
        class_of(error) is Capability <==> error is Capability,
        class_of(error) is Reentrant <==> error is Reentrant,
        class_of(error) is Base <==> error is Runtime || error is Wasm,
{
}

/// Whether pairs are those that items of a list go to Lua as: each under its number, from one up,
/// and none for a nil.
pub open spec fn are_numbered_items(pairs: Seq<(KeyModel, LuaModel)>, count: int) -> bool {
    &&& pairs.len() <= count
    &&& forall|k: int| 0 <= k < pairs.len() ==> !((#[trigger] pairs[k]).1 is Nil)
    &&& forall|k: int|
        0 <= k < pairs.len() ==> ((#[trigger] pairs[k]).0 matches KeyModel::Integer(n) && 1 <= n
            <= count)
}

/// A list goes to Lua as a table of its items under their numbers; a nil leaves no pair, and moves
/// no other item.
pub proof fn a_list_goes_by_its_numbers(items: Seq<ValueModel>, had: Option<u64>)
    requires
        items.len() <= i64::MAX,
    ensures
        lua_items(items, had).0 matches Some(pairs) ==> are_numbered_items(
            pairs,
            items.len() as int,
        ),
        items.len() > 0 ==> ({
            let less = lua_items(items.drop_last(), had);
            let last = lua_of(items.last(), less.1);
            less.0 is Some && last.0 is Some ==> lua_items(items, had).0 == Some(
                if last.0->0 is Nil {
                    less.0->0
                } else {
                    less.0->0.push((KeyModel::Integer(items.len() as i64), last.0->0))
                },
            )
        }),
    decreases items.len(),
{
    if items.len() > 0 {
        a_list_goes_by_its_numbers(items.drop_last(), had);
    }
}

/// A mapping goes to Lua as a table of its values under their names; a nil leaves no pair.
pub proof fn a_mapping_goes_by_its_names(entries: Seq<(Seq<char>, ValueModel)>, had: Option<u64>)
    ensures
        lua_entries(entries, had).0 matches Some(pairs) ==> {
            &&& pairs.len() <= entries.len()
            &&& forall|k: int| 0 <= k < pairs.len() ==> !((#[trigger] pairs[k]).1 is Nil)
            &&& forall|k: int|
                0 <= k < pairs.len() ==> exists|i: int|
                    0 <= i < entries.len() && (#[trigger] pairs[k]).0 == KeyModel::Text(
                        Some((#[trigger] entries[i]).0),
                    )
        },
    decreases entries.len(),
{
    if entries.len() > 0 {
        let less = entries.drop_last();
        a_mapping_goes_by_its_names(less, had);
        match lua_entries(entries, had).0 {
            Some(pairs) => {
                let fewer = lua_entries(less, had).0->0;
                assert forall|k: int| 0 <= k < pairs.len() implies exists|i: int|
                    0 <= i < entries.len() && (#[trigger] pairs[k]).0 == KeyModel::Text(
                        Some((#[trigger] entries[i]).0),
                    ) by {
                    if k < fewer.len() {
                        assert(pairs[k] == fewer[k]);
                        let i = choose|i: int|
                            0 <= i < less.len() && fewer[k].0 == KeyModel::Text(
                                Some((#[trigger] less[i]).0),
                            );
                        assert(entries[i] == less[i]);
                    } else {
                        let i = entries.len() - 1;
                        assert(pairs[k].0 == KeyModel::Text(Some(entries[i].0)));
                    }
                }
            },
            None => {},
        }
    }
}

/// Of several functions that come from Lua, the last is the one that is kept: what a table holds
/// last counts, and what is no function and holds none changes nothing.
pub proof fn the_last_function_is_kept(
    pairs: Seq<(KeyModel, LuaModel)>,
    last: (KeyModel, LuaModel),
    had: Option<u64>,
)
    requires
        !is_array(pairs),
        !is_array(pairs.push(last)),
    ensures
        kept_after(LuaModel::Table(pairs.push(last)), had) == kept_after(
            last.1,
            kept_after(LuaModel::Table(pairs), had),
        ),
        last.1 matches LuaModel::Function(handle) ==> kept_after(
            LuaModel::Table(pairs.push(last)),
            had,
        ) == Some(handle),
        last.1 is Nil || last.1 is Boolean || last.1 is Integer || last.1 is Number || last.1 is Text
            ==> kept_after(LuaModel::Table(pairs.push(last)), had) == kept_after(
            LuaModel::Table(pairs),
            had,
        ),
{
    let all = pairs.push(last);
    assert(all.drop_last() =~= pairs);
    assert(all.last() == last);
}

} // verus!
