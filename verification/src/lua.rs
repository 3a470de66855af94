//! Lua values as a foreign caller sees them, and what a Lua object must offer to stand for a
//! class or an instance of one.
//!
//! A state is left out of the picture: a table is a list of what walking it gives, a function
//! is the handle its host keeps it under, and a float is the bits of its IEEE 754 double.

use crate::binding;
use crate::names;
use crate::names::NameMap;
use crate::text;
use crate::value::{Value, ValueModel};
use crate::value;
use vstd::prelude::*;
use vstd::string::*;

verus! {

/// A key of a Lua table.
#[derive(Debug, PartialEq)]
pub enum LuaKey {
    Integer(i64),
    /// A string, or nothing where its bytes are not text.
    Text(Option<String>),
    /// Any other key, as Lua writes it.
    Other(String),
}

/// A Lua value.
#[derive(Debug, PartialEq)]
pub enum LuaData {
    Nil,
    Boolean(bool),
    Integer(i64),
    /// A float, by its bits.
    Number(u64),
    /// A string, or nothing where its bytes are not text.
    Text(Option<String>),
    /// A table, as its pairs in the order in which they are walked.
    Table(Vec<(LuaKey, LuaData)>),
    /// A function, by its handle.
    Function(u64),
    /// Userdata, a thread or another value that no foreign caller can hold.
    Opaque,
}

/// What a key is, apart from how it is stored.
pub enum KeyModel {
    Integer(i64),
    Text(Option<Seq<char>>),
    Other(Seq<char>),
}

/// What a Lua value is, apart from how it is stored.
pub enum LuaModel {
    Nil,
    Boolean(bool),
    Integer(i64),
    Number(u64),
    Text(Option<Seq<char>>),
    Table(Seq<(KeyModel, LuaModel)>),
    Function(u64),
    Opaque,
}

impl LuaKey {
    pub open spec fn model(self) -> KeyModel {
        match self {
            LuaKey::Integer(n) => KeyModel::Integer(n),
            LuaKey::Text(s) => KeyModel::Text(text::opt(s)),
            LuaKey::Other(s) => KeyModel::Other(s@),
        }
    }
}

impl LuaData {
    pub open spec fn model(self) -> LuaModel
        decreases self,
    {
        match self {
            LuaData::Nil => LuaModel::Nil,
            LuaData::Boolean(b) => LuaModel::Boolean(b),
            LuaData::Integer(n) => LuaModel::Integer(n),
            LuaData::Number(bits) => LuaModel::Number(bits),
            LuaData::Text(s) => LuaModel::Text(text::opt(s)),
            LuaData::Table(pairs) => LuaModel::Table(pair_models(pairs@)),
            LuaData::Function(handle) => LuaModel::Function(handle),
            LuaData::Opaque => LuaModel::Opaque,
        }
    }
}

pub open spec fn pair_models(pairs: Seq<(LuaKey, LuaData)>) -> Seq<(KeyModel, LuaModel)>
    decreases pairs,
{
    if pairs.len() == 0 {
        Seq::empty()
    } else {
        pair_models(pairs.drop_last()).push((pairs.last().0.model(), pairs.last().1.model()))
    }
}

pub proof fn pair_models_at(pairs: Seq<(LuaKey, LuaData)>)
    ensures
        pair_models(pairs).len() == pairs.len(),
        forall|i: int|
            0 <= i < pairs.len() ==> #[trigger] pair_models(pairs)[i] == (
                pairs[i].0.model(),
                pairs[i].1.model(),
            ),
    decreases pairs,
{
    if pairs.len() > 0 {
        pair_models_at(pairs.drop_last());
        assert forall|i: int| 0 <= i < pairs.len() implies #[trigger] pair_models(pairs)[i] == (
            pairs[i].0.model(),
            pairs[i].1.model(),
        ) by {
            if i < pairs.len() - 1 {
                assert(pairs.drop_last()[i] == pairs[i]);
                assert(pair_models(pairs)[i] == pair_models(pairs.drop_last())[i]);
            }
        }
    }
}

/// The text of a string: bytes that are not text read as nothing.
pub open spec fn text_read(s: Option<Seq<char>>) -> Seq<char> {
    match s {
        Some(s) => s,
        None => Seq::empty(),
    }
}

/// A key rendered as a string.
pub open spec fn key_name(key: KeyModel) -> Seq<char> {
    match key {
        KeyModel::Integer(n) => text::signed_decimal(n as int),
        KeyModel::Text(s) => text_read(s),
        KeyModel::Other(s) => s,
    }
}

/// The last place at which an integer key stands, or -1.
pub open spec fn last_of(pairs: Seq<(KeyModel, LuaModel)>, k: int) -> int
    decreases pairs.len(),
{
    if pairs.len() == 0 {
        -1
    } else if pairs.last().0 matches KeyModel::Integer(n) && n == k {
        pairs.len() - 1
    } else {
        last_of(pairs.drop_last(), k)
    }
}

/// Whether the keys of a table are exactly `1..=n`, with `n` at least one.
pub open spec fn is_array(pairs: Seq<(KeyModel, LuaModel)>) -> bool {
    &&& pairs.len() > 0
    &&& forall|k: int| 1 <= k <= pairs.len() ==> #[trigger] last_of(pairs, k) >= 0
}

/// Entries with one more, in place of the one under that name.
pub open spec fn put(
    entries: Seq<(Seq<char>, ValueModel)>,
    name: Seq<char>,
    value: ValueModel,
) -> Seq<(Seq<char>, ValueModel)> {
    let i = names::slot(entry_names(entries), name);
    if i < entries.len() && entries[i].0 == name {
        entries.update(i, (name, value))
    } else {
        entries.insert(i, (name, value))
    }
}

/// The names of a list of entries.
pub open spec fn entry_names(entries: Seq<(Seq<char>, ValueModel)>) -> Seq<Seq<char>> {
    entries.map_values(|e: (Seq<char>, ValueModel)| e.0)
}

/// What a foreign caller reads of a Lua value.
pub open spec fn value_of_lua(lua: LuaModel) -> ValueModel
    decreases lua, 0int,
{
    match lua {
        LuaModel::Nil => ValueModel::Nil,
        LuaModel::Boolean(b) => ValueModel::Bool(b),
        LuaModel::Integer(n) => ValueModel::Int(n),
        LuaModel::Number(bits) => ValueModel::Float(bits),
        LuaModel::Text(s) => ValueModel::Str(text_read(s)),
        LuaModel::Table(pairs) => if is_array(pairs) {
            ValueModel::List(array_values(pairs, pairs.len() as int))
        } else {
            ValueModel::Mapping(table_values(pairs))
        },
        LuaModel::Function(_) => ValueModel::Function,
        LuaModel::Opaque => ValueModel::Nil,
    }
}

/// What stands under the keys `1..=n`.
pub open spec fn array_values(pairs: Seq<(KeyModel, LuaModel)>, n: int) -> Seq<ValueModel>
    decreases pairs, n,
{
    if n <= 0 {
        Seq::empty()
    } else {
        let p = last_of(pairs, n);
        if 0 <= p < pairs.len() {
            array_values(pairs, n - 1).push(value_of_lua(pairs[p].1))
        } else {
            array_values(pairs, n - 1)
        }
    }
}

/// What stands under the rendered keys: of keys that render alike, the last counts.
pub open spec fn table_values(pairs: Seq<(KeyModel, LuaModel)>) -> Seq<(Seq<char>, ValueModel)>
    decreases pairs, 0int,
{
    if pairs.len() == 0 {
        Seq::empty()
    } else {
        put(table_values(pairs.drop_last()), key_name(pairs.last().0), value_of_lua(pairs.last().1))
    }
}

/// The function kept after a value was read: the last one met, or the one kept before.
pub open spec fn kept_after(lua: LuaModel, had: Option<u64>) -> Option<u64>
    decreases lua, 0int,
{
    match lua {
        LuaModel::Function(handle) => Some(handle),
        LuaModel::Table(pairs) => if is_array(pairs) {
            array_kept(pairs, pairs.len() as int, had)
        } else {
            table_kept(pairs, had)
        },
        _ => had,
    }
}

pub open spec fn array_kept(
    pairs: Seq<(KeyModel, LuaModel)>,
    n: int,
    had: Option<u64>,
) -> Option<u64>
    decreases pairs, n,
{
    if n <= 0 {
        had
    } else {
        let p = last_of(pairs, n);
        if 0 <= p < pairs.len() {
            kept_after(pairs[p].1, array_kept(pairs, n - 1, had))
        } else {
            array_kept(pairs, n - 1, had)
        }
    }
}

pub open spec fn table_kept(pairs: Seq<(KeyModel, LuaModel)>, had: Option<u64>) -> Option<u64>
    decreases pairs, 0int,
{
    if pairs.len() == 0 {
        had
    } else {
        kept_after(pairs.last().1, table_kept(pairs.drop_last(), had))
    }
}

proof fn last_of_bounds(pairs: Seq<(KeyModel, LuaModel)>, k: int)
    ensures
        -1 <= last_of(pairs, k) < pairs.len(),
    decreases pairs.len(),
{
    if pairs.len() > 0 {
        last_of_bounds(pairs.drop_last(), k);
    }
}

proof fn names_of_models(entries: Seq<(String, Value)>)
    ensures
        entry_names(value::value_entry_models(entries)) == names::keys(entries),
{
    value::value_entry_models_at(entries);
    assert(entry_names(value::value_entry_models(entries)) =~= names::keys(entries));
}

/// A string as text.
fn read_text(s: &Option<String>) -> (r: String)
    ensures
        r@ == text_read(text::opt(*s)),
{
    match s {
        Some(s) => s.clone(),
        None => {
            let r = String::new();
            assert(r@ =~= Seq::<char>::empty());
            r
        },
    }
}

/// Renders a key as a string.
pub fn render_key(key: &LuaKey) -> (r: String)
    ensures
        r@ == key_name(key.model()),
{
    match key {
        LuaKey::Integer(n) => binding::signed_number(*n),
        LuaKey::Text(s) => read_text(s),
        LuaKey::Other(s) => s.clone(),
    }
}

/// Where the keys `1..=n` stand in a table of `n` pairs, with `n` for a key that is missing.
fn array_places(pairs: &Vec<(LuaKey, LuaData)>) -> (r: Vec<usize>)
    ensures
        r.len() == pairs.len(),
        forall|k: int|
            0 <= k < pairs.len() ==> {
                let p = last_of(pair_models(pairs@), k + 1);
                #[trigger] r[k] == if p >= 0 {
                    p
                } else {
                    pairs.len() as int
                }
            },
{
    let n: usize = pairs.len();
    let mut places: Vec<usize> = Vec::new();
    let mut i: usize = 0;
    while i < n
        invariant
            i <= n,
            n == pairs.len(),
            places.len() == i,
            forall|k: int| 0 <= k < i ==> #[trigger] places[k] == n,
        decreases n - i,
    {
        places.push(n);
        i = i + 1;
    }
    i = 0;
    proof {
        assert(pairs@.subrange(0, 0) =~= Seq::empty());
    }
    while i < n
        invariant
            i <= n,
            n == pairs.len(),
            places.len() == n,
            forall|k: int|
                0 <= k < n ==> {
                    let p = last_of(pair_models(pairs@.subrange(0, i as int)), k + 1);
                    #[trigger] places[k] == if p >= 0 {
                        p
                    } else {
                        n as int
                    }
                },
        decreases n - i,
    {
        let ghost was = places@;
        let ghost seen = pairs@.subrange(0, i as int);
        let ghost next = pairs@.subrange(0, i + 1);
        proof {
            assert(next.drop_last() =~= seen);
            pair_models_at(next);
            pair_models_at(seen);
            assert(pair_models(next).drop_last() =~= pair_models(seen));
        }
        if let LuaKey::Integer(k) = &pairs[i].0 {
            let k: i64 = *k;
            if k >= 1 && ((k - 1) as u64) < (n as u64) {
                let at: usize = (k - 1) as usize;
                places.set(at, i);
            }
        }
        proof {
            assert forall|k: int| 0 <= k < n implies {
                let p = last_of(pair_models(next), k + 1);
                #[trigger] places[k] == if p >= 0 {
                    p
                } else {
                    n as int
                }
            } by {
                assert(was[k] == was[k]);
                assert(pair_models(next).last() == (pairs[i as int].0.model(), pairs[i as int].1.model()));
            }
        }
        i = i + 1;
    }
    proof {
        assert(pairs@.subrange(0, n as int) =~= pairs@);
    }
    places
}

/// Whether no place is missing.
fn all_placed(places: &Vec<usize>, n: usize) -> (r: bool)
    ensures
        r == (forall|k: int| 0 <= k < places.len() ==> #[trigger] places[k] < n),
{
    let mut i: usize = 0;
    while i < places.len()
        invariant
            i <= places.len(),
            forall|k: int| 0 <= k < i ==> #[trigger] places[k] < n,
        decreases places.len() - i,
    {
        if places[i] >= n {
            return false;
        }
        i = i + 1;
    }
    true
}

/// Reads a Lua value for a foreign caller. A function stays behind, in `cache`, as only the
/// state that made it can call it; what a caller cannot hold reads as nil.
pub fn lua_to_abi(lua: &LuaData, cache: &mut Option<u64>) -> (r: Value)
    ensures
        r.model() == value_of_lua(lua.model()),
        *final(cache) == kept_after(lua.model(), *old(cache)),
    decreases lua,
{
    match lua {
        LuaData::Nil => Value::Nil,
        LuaData::Boolean(b) => Value::Bool(*b),
        LuaData::Integer(n) => Value::Int(*n),
        LuaData::Number(bits) => Value::Float(*bits),
        LuaData::Text(s) => Value::Str(read_text(s)),
        LuaData::Function(handle) => {
            *cache = Some(*handle);
            Value::Function
        },
        LuaData::Opaque => Value::Nil,
        LuaData::Table(pairs) => {
            let n: usize = pairs.len();
            let places = array_places(pairs);
            let ghost models = pair_models(pairs@);
            proof {
                pair_models_at(pairs@);
            }
            if n > 0 && all_placed(&places, n) {
                proof {
                    assert forall|k: int| 1 <= k <= n implies #[trigger] last_of(models, k) >= 0 by {
                        last_of_bounds(models, k);
                        assert(places[k - 1] < n);
                    }
                }
                let mut out: Vec<Value> = Vec::new();
                let mut i: usize = 0;
                while i < n
                    invariant
                        i <= n,
                        n == pairs.len(),
                        places.len() == n,
                        models == pair_models(pairs@),
                        models.len() == n,
                        decreases_to!(lua => pairs),
                        forall|k: int| 0 <= k < n ==> #[trigger] places[k] < n,
                        forall|k: int|
                            0 <= k < pairs.len() ==> {
                                let p = last_of(models, k + 1);
                                #[trigger] places[k] == if p >= 0 {
                                    p
                                } else {
                                    pairs.len() as int
                                }
                            },
                        value::value_models(out@) == array_values(models, i as int),
                        *cache == array_kept(models, i as int, *old(cache)),
                    decreases n - i,
                {
                    let ghost had = out@;
                    let p: usize = places[i];
                    proof {
                        last_of_bounds(models, i + 1);
                        pair_models_at(pairs@);
                    }
                    out.push(lua_to_abi(&pairs[p].1, cache));
                    proof {
                        assert(out@.drop_last() =~= had);
                    }
                    i = i + 1;
                }
                Value::List(out)
            } else {
                proof {
                    if n > 0 {
                        let k = choose|k: int| 0 <= k < places.len() && !(#[trigger] places[k] < n);
                        last_of_bounds(models, k + 1);
                        assert(last_of(models, k + 1) < 0);
                    }
                    assert(!is_array(models));
                    assert(pairs@.subrange(0, 0) =~= Seq::empty());
                }
                let mut out: NameMap<Value> = NameMap::new();
                let mut i: usize = 0;
                while i < n
                    invariant
                        i <= n,
                        n == pairs.len(),
                        out.wf(),
                        decreases_to!(lua => pairs),
                        value::value_entry_models(out.entries@) == table_values(
                            pair_models(pairs@.subrange(0, i as int)),
                        ),
                        *cache == table_kept(
                            pair_models(pairs@.subrange(0, i as int)),
                            *old(cache),
                        ),
                    decreases n - i,
                {
                    let ghost seen = pairs@.subrange(0, i as int);
                    let ghost next = pairs@.subrange(0, i + 1);
                    proof {
                        assert(next.drop_last() =~= seen);
                        assert(pair_models(next).drop_last() =~= pair_models(seen));
                    }
                    let pair = &pairs[i];
                    let name = render_key(&pair.0);
                    let read = lua_to_abi(&pair.1, cache);
                    let ghost was = out.entries@;
                    let ghost key = name;
                    let ghost item = read;
                    out.insert(name, read);
                    proof {
                        names_of_models(was);
                        names::slot_bounds(names::keys(was), key@);
                        value::value_entry_models_at(was);
                        value::value_entry_models_at(out.entries@);
                        assert(value::value_entry_models(out.entries@) =~= put(
                            value::value_entry_models(was),
                            key@,
                            item.model(),
                        ));
                    }
                    i = i + 1;
                }
                proof {
                    assert(pairs@.subrange(0, n as int) =~= pairs@);
                }
                Value::Mapping(out)
            }
        },
    }
}

/// What a value becomes in Lua, with the function that is still kept afterwards. A function
/// is handed back once: there is none where no function is kept.
pub open spec fn lua_of(value: ValueModel, had: Option<u64>) -> (Option<LuaModel>, Option<u64>)
    decreases value,
{
    match value {
        ValueModel::Nil => (Some(LuaModel::Nil), had),
        ValueModel::Bool(b) => (Some(LuaModel::Boolean(b)), had),
        ValueModel::Int(n) => (Some(LuaModel::Integer(n)), had),
        ValueModel::Float(bits) => (Some(LuaModel::Number(bits)), had),
        ValueModel::Str(s) => (Some(LuaModel::Text(Some(s))), had),
        ValueModel::List(items) => as_table(lua_items(items, had)),
        ValueModel::Mapping(entries) => as_table(lua_entries(entries, had)),
        ValueModel::Function => match had {
            Some(handle) => (Some(LuaModel::Function(handle)), None),
            None => (None, None),
        },
    }
}

pub open spec fn as_table(
    made: (Option<Seq<(KeyModel, LuaModel)>>, Option<u64>),
) -> (Option<LuaModel>, Option<u64>) {
    match made.0 {
        Some(pairs) => (Some(LuaModel::Table(pairs)), made.1),
        None => (None, made.1),
    }
}

/// The pairs of a table after `key` was set: a table holds no nil.
pub open spec fn with_pair(
    made: (Option<Seq<(KeyModel, LuaModel)>>, Option<u64>),
    key: KeyModel,
    item: (Option<LuaModel>, Option<u64>),
) -> (Option<Seq<(KeyModel, LuaModel)>>, Option<u64>) {
    match (made.0, item.0) {
        (Some(pairs), Some(lua)) => (
            Some(
                if lua is Nil {
                    pairs
                } else {
                    pairs.push((key, lua))
                },
            ),
            item.1,
        ),
        _ => (None, item.1),
    }
}

/// The pairs of a list: its items under `1..=n`.
pub open spec fn lua_items(items: Seq<ValueModel>, had: Option<u64>) -> (
    Option<Seq<(KeyModel, LuaModel)>>,
    Option<u64>,
)
    decreases items,
{
    if items.len() == 0 {
        (Some(Seq::empty()), had)
    } else {
        let made = lua_items(items.drop_last(), had);
        if made.0 is None {
            made
        } else {
            with_pair(made, KeyModel::Integer(items.len() as i64), lua_of(items.last(), made.1))
        }
    }
}

/// The pairs of a mapping: its items under their names.
pub open spec fn lua_entries(entries: Seq<(Seq<char>, ValueModel)>, had: Option<u64>) -> (
    Option<Seq<(KeyModel, LuaModel)>>,
    Option<u64>,
)
    decreases entries,
{
    if entries.len() == 0 {
        (Some(Seq::empty()), had)
    } else {
        let made = lua_entries(entries.drop_last(), had);
        if made.0 is None {
            made
        } else {
            with_pair(made, KeyModel::Text(Some(entries.last().0)), lua_of(entries.last().1, made.1))
        }
    }
}

/// What could not be made of the first items is not made of all of them.
proof fn item_failure_stays(items: Seq<ValueModel>, k: int, had: Option<u64>)
    requires
        0 <= k <= items.len(),
        lua_items(items.subrange(0, k), had).0 is None,
    ensures
        lua_items(items, had) == lua_items(items.subrange(0, k), had),
    decreases items.len(),
{
    if k < items.len() {
        assert(items.drop_last().subrange(0, k) =~= items.subrange(0, k));
        item_failure_stays(items.drop_last(), k, had);
    } else {
        assert(items.subrange(0, k) =~= items);
    }
}

proof fn entry_failure_stays(entries: Seq<(Seq<char>, ValueModel)>, k: int, had: Option<u64>)
    requires
        0 <= k <= entries.len(),
        lua_entries(entries.subrange(0, k), had).0 is None,
    ensures
        lua_entries(entries, had) == lua_entries(entries.subrange(0, k), had),
    decreases entries.len(),
{
    if k < entries.len() {
        assert(entries.drop_last().subrange(0, k) =~= entries.subrange(0, k));
        entry_failure_stays(entries.drop_last(), k, had);
    } else {
        assert(entries.subrange(0, k) =~= entries);
    }
}

/// Makes a Lua value of what a foreign caller hands over. A function is the one kept in
/// `cache`, which is spent by it.
pub fn abi_to_lua(value: &Value, cache: &mut Option<u64>) -> (r: Result<LuaData, String>)
    ensures
        *final(cache) == lua_of(value.model(), *old(cache)).1,
        match lua_of(value.model(), *old(cache)).0 {
            Some(lua) => r matches Ok(made) && made.model() == lua,
            None => r matches Err(message) && message@ == "cached function not found"@,
        },
    decreases value,
{
    match value {
        Value::Nil => Ok(LuaData::Nil),
        Value::Bool(b) => Ok(LuaData::Boolean(*b)),
        Value::Int(n) => Ok(LuaData::Integer(*n)),
        Value::Float(bits) => Ok(LuaData::Number(*bits)),
        Value::Str(s) => Ok(LuaData::Text(Some(s.clone()))),
        Value::Function => {
            let kept = *cache;
            *cache = None;
            match kept {
                Some(handle) => Ok(LuaData::Function(handle)),
                None => Err("cached function not found".to_owned()),
            }
        },
        Value::List(items) => {
            let n: usize = items.len();
            let mut out: Vec<(LuaKey, LuaData)> = Vec::new();
            let mut i: usize = 0;
            let ghost models = value::value_models(items@);
            proof {
                value::value_models_at(items@);
                assert(models.subrange(0, 0) =~= Seq::empty());
            }
            while i < n
                invariant
                    i <= n,
                    n == items.len(),
                    models == value::value_models(items@),
                    models.len() == n,
                    value.model() == ValueModel::List(models),
                    decreases_to!(value => items),
                    lua_items(models.subrange(0, i as int), *old(cache)) == (
                        Some(pair_models(out@)),
                        *cache,
                    ),
                decreases n - i,
            {
                let ghost seen = models.subrange(0, i as int);
                let ghost next = models.subrange(0, i + 1);
                let ghost had = out@;
                proof {
                    value::value_models_at(items@);
                    assert(next.drop_last() =~= seen);
                    assert(next.last() == items[i as int].model());
                }
                match abi_to_lua(&items[i], cache) {
                    Ok(LuaData::Nil) => {},
                    Ok(made) => {
                        out.push((LuaKey::Integer(place_key(i)), made));
                        proof {
                            assert(out@.drop_last() =~= had);
                        }
                    },
                    Err(message) => {
                        proof {
                            item_failure_stays(models, i + 1, *old(cache));
                        }
                        return Err(message);
                    },
                }
                i = i + 1;
            }
            proof {
                assert(models.subrange(0, n as int) =~= models);
            }
            Ok(LuaData::Table(out))
        },
        Value::Mapping(map) => {
            let n: usize = map.entries.len();
            let mut out: Vec<(LuaKey, LuaData)> = Vec::new();
            let mut i: usize = 0;
            let ghost models = value::value_entry_models(map.entries@);
            proof {
                value::value_entry_models_at(map.entries@);
                assert(models.subrange(0, 0) =~= Seq::empty());
            }
            while i < n
                invariant
                    i <= n,
                    n == map.entries.len(),
                    models == value::value_entry_models(map.entries@),
                    models.len() == n,
                    value.model() == ValueModel::Mapping(models),
                    decreases_to!(value => map.entries),
                    lua_entries(models.subrange(0, i as int), *old(cache)) == (
                        Some(pair_models(out@)),
                        *cache,
                    ),
                decreases n - i,
            {
                let ghost seen = models.subrange(0, i as int);
                let ghost next = models.subrange(0, i + 1);
                let ghost had = out@;
                let entry = &map.entries[i];
                proof {
                    value::value_entry_models_at(map.entries@);
                    assert(next.drop_last() =~= seen);
                    assert(next.last() == (entry.0@, entry.1.model()));
                }
                match abi_to_lua(&entry.1, cache) {
                    Ok(LuaData::Nil) => {},
                    Ok(made) => {
                        out.push((LuaKey::Text(Some(entry.0.clone())), made));
                        proof {
                            assert(out@.drop_last() =~= had);
                        }
                    },
                    Err(message) => {
                        proof {
                            entry_failure_stays(models, i + 1, *old(cache));
                        }
                        return Err(message);
                    },
                }
                i = i + 1;
            }
            proof {
                assert(models.subrange(0, n as int) =~= models);
            }
            Ok(LuaData::Table(out))
        },
    }
}

/// The key of the item at a place.
fn place_key(i: usize) -> (r: i64)
    requires
        i < usize::MAX,
    ensures
        r == ((i + 1) as nat) as i64,
{
    #[verifier::truncate]
    ((i + 1) as i64)
}

/// Whether a value reads back from Lua as it was: it holds no function, no nil but itself, no
/// empty list, and its names stand in order.
pub open spec fn crosses(value: ValueModel) -> bool
    decreases value,
{
    match value {
        ValueModel::List(items) => 0 < items.len() <= i64::MAX && items_cross(items),
        ValueModel::Mapping(entries) => names::rising(entry_names(entries)) && entries_cross(entries),
        ValueModel::Function => false,
        _ => true,
    }
}

pub open spec fn items_cross(items: Seq<ValueModel>) -> bool
    decreases items,
{
    items.len() == 0 || (items_cross(items.drop_last()) && !(items.last() is Nil) && crosses(
        items.last(),
    ))
}

pub open spec fn entries_cross(entries: Seq<(Seq<char>, ValueModel)>) -> bool
    decreases entries,
{
    entries.len() == 0 || (entries_cross(entries.drop_last()) && !(entries.last().1 is Nil)
        && crosses(entries.last().1))
}

/// A value that goes into Lua and comes back is the value it was, and no kept function is
/// touched on the way.
pub proof fn lua_round_trip(value: ValueModel, had: Option<u64>)
    requires
        crosses(value),
    ensures
        lua_of(value, had).1 == had,
        lua_of(value, had).0 matches Some(lua) && value_of_lua(lua) == value && kept_after(lua, had)
            == had,
    decreases value, 0int,
{
    match value {
        ValueModel::List(items) => {
            items_round_trip(items, had);
            let pairs = lua_items(items, had).0->Some_0;
            assert forall|k: int| 1 <= k <= pairs.len() implies #[trigger] last_of(pairs, k)
                >= 0 by {
                counted_place(pairs, k);
            }
            assert(array_values(pairs, items.len() as int) =~= items);
        },
        ValueModel::Mapping(entries) => {
            entries_round_trip(entries, had);
            let pairs = lua_entries(entries, had).0->Some_0;
            if pairs.len() > 0 {
                texts_have_no_place(pairs, 1);
            }
            assert(!is_array(pairs));
        },
        _ => {},
    }
}

/// Whether the keys are `1..=n` in order.
spec fn counted(pairs: Seq<(KeyModel, LuaModel)>) -> bool {
    forall|i: int|
        0 <= i < pairs.len() ==> (#[trigger] pairs[i]).0 == KeyModel::Integer((i + 1) as i64)
}

spec fn texts(pairs: Seq<(KeyModel, LuaModel)>) -> bool {
    forall|i: int| 0 <= i < pairs.len() ==> (#[trigger] pairs[i]).0 is Text
}

proof fn counted_place(pairs: Seq<(KeyModel, LuaModel)>, k: int)
    requires
        counted(pairs),
        pairs.len() <= i64::MAX,
        1 <= k <= pairs.len(),
    ensures
        last_of(pairs, k) == k - 1,
    decreases pairs.len(),
{
    if k < pairs.len() {
        assert(pairs.last() == pairs[pairs.len() - 1]);
        assert forall|i: int| 0 <= i < pairs.drop_last().len() implies (
        #[trigger] pairs.drop_last()[i]).0 == KeyModel::Integer((i + 1) as i64) by {
            assert(pairs.drop_last()[i] == pairs[i]);
        }
        counted_place(pairs.drop_last(), k);
    } else {
        assert(pairs.last() == pairs[k - 1]);
    }
}

proof fn texts_have_no_place(pairs: Seq<(KeyModel, LuaModel)>, k: int)
    requires
        texts(pairs),
    ensures
        last_of(pairs, k) == -1,
    decreases pairs.len(),
{
    if pairs.len() > 0 {
        assert(pairs.last() == pairs[pairs.len() - 1]);
        assert forall|i: int| 0 <= i < pairs.drop_last().len() implies (
        #[trigger] pairs.drop_last()[i]).0 is Text by {
            assert(pairs.drop_last()[i] == pairs[i]);
        }
        texts_have_no_place(pairs.drop_last(), k);
    }
}

/// More pairs leave what the first keys hold as it was.
proof fn array_grows(pairs: Seq<(KeyModel, LuaModel)>, n: int, had: Option<u64>)
    requires
        counted(pairs),
        0 < pairs.len() <= i64::MAX,
        0 <= n < pairs.len(),
    ensures
        array_values(pairs, n) == array_values(pairs.drop_last(), n),
        array_kept(pairs, n, had) == array_kept(pairs.drop_last(), n, had),
    decreases n,
{
    if n > 0 {
        let most = pairs.drop_last();
        array_grows(pairs, n - 1, had);
        assert(counted(most)) by {
            assert forall|i: int| 0 <= i < most.len() implies (#[trigger] most[i]).0
                == KeyModel::Integer((i + 1) as i64) by {
                assert(most[i] == pairs[i]);
            }
        }
        counted_place(pairs, n);
        counted_place(most, n);
        assert(most[n - 1] == pairs[n - 1]);
    }
}

proof fn items_round_trip(items: Seq<ValueModel>, had: Option<u64>)
    requires
        items_cross(items),
        items.len() <= i64::MAX,
    ensures
        lua_items(items, had).1 == had,
        lua_items(items, had).0 matches Some(pairs) && {
            &&& pairs.len() == items.len()
            &&& counted(pairs)
            &&& array_values(pairs, items.len() as int) == items
            &&& array_kept(pairs, items.len() as int, had) == had
        },
    decreases items, 1int,
{
    if items.len() > 0 {
        let most = items.drop_last();
        items_round_trip(most, had);
        lua_round_trip(items.last(), had);
        let before = lua_items(most, had).0->Some_0;
        let lua = lua_of(items.last(), had).0->Some_0;
        let pairs = lua_items(items, had).0->Some_0;
        assert(!(lua is Nil));
        assert(pairs == before.push((KeyModel::Integer(items.len() as i64), lua)));
        assert(pairs.drop_last() =~= before);
        assert forall|i: int| 0 <= i < pairs.len() implies (#[trigger] pairs[i]).0
            == KeyModel::Integer((i + 1) as i64) by {
            if i < before.len() {
                assert(pairs[i] == before[i]);
            }
        }
        let n = items.len() as int;
        array_grows(pairs, n - 1, had);
        counted_place(pairs, n);
        assert(items =~= most.push(items.last()));
    }
}

proof fn entries_round_trip(entries: Seq<(Seq<char>, ValueModel)>, had: Option<u64>)
    requires
        entries_cross(entries),
        names::rising(entry_names(entries)),
    ensures
        lua_entries(entries, had).1 == had,
        lua_entries(entries, had).0 matches Some(pairs) && {
            &&& pairs.len() == entries.len()
            &&& texts(pairs)
            &&& table_values(pairs) == entries
            &&& table_kept(pairs, had) == had
        },
    decreases entries, 1int,
{
    if entries.len() > 0 {
        let most = entries.drop_last();
        let all_names = entry_names(entries);
        let most_names = entry_names(most);
        assert(most_names =~= all_names.drop_last());
        assert forall|i: int, j: int| 0 <= i < j < most_names.len() implies names::before(
            #[trigger] most_names[i],
            #[trigger] most_names[j],
        ) by {
            assert(names::before(all_names[i], all_names[j]));
        }
        entries_round_trip(most, had);
        lua_round_trip(entries.last().1, had);
        let before = lua_entries(most, had).0->Some_0;
        let lua = lua_of(entries.last().1, had).0->Some_0;
        let pairs = lua_entries(entries, had).0->Some_0;
        let name = entries.last().0;
        assert(!(lua is Nil));
        assert(pairs == before.push((KeyModel::Text(Some(name)), lua)));
        assert(pairs.drop_last() =~= before);
        assert forall|i: int| 0 <= i < pairs.len() implies (#[trigger] pairs[i]).0 is Text by {
            if i < before.len() {
                assert(pairs[i] == before[i]);
            }
        }
        assert forall|j: int| 0 <= j < most_names.len() implies names::before(
            #[trigger] most_names[j],
            name,
        ) by {
            assert(names::before(all_names[j], all_names[all_names.len() - 1]));
        }
        names::slot_is(most_names, name, most.len() as int);
        assert(most.insert(most.len() as int, (name, entries.last().1)) =~= entries);
    }
}

} // verus!
