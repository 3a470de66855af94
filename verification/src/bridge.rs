//! Calls between a Lua plugin and its host: arguments on their way in, answers on their way
//! out, and the functions kept behind while a foreign caller holds their place.

use crate::callback::{CapabilityCall, CapabilityProvider};
use crate::capability::Grant;
use crate::lua;
use crate::lua::{abi_to_lua, kept_after, lua_of, lua_to_abi, value_of_lua, LuaData, LuaModel};
use crate::value;
use crate::value::{value_entries, Value, ValueModel};
use vstd::prelude::*;

verus! {

/// The models of a list of Lua values.
pub open spec fn lua_models(list: Seq<LuaData>) -> Seq<LuaModel> {
    list.map_values(|lua: LuaData| lua.model())
}

/// The arguments of a call as Lua values, with the function that is still kept afterwards.
pub open spec fn lua_args(args: Seq<ValueModel>, had: Option<u64>) -> (
    Option<Seq<LuaModel>>,
    Option<u64>,
)
    decreases args.len(),
{
    if args.len() == 0 {
        (Some(Seq::empty()), had)
    } else {
        let made = lua_args(args.drop_last(), had);
        match made.0 {
            None => made,
            Some(list) => {
                let last = lua_of(args.last(), made.1);
                match last.0 {
                    Some(lua) => (Some(list.push(lua)), last.1),
                    None => (None, last.1),
                }
            },
        }
    }
}

proof fn argument_failure_stays(args: Seq<ValueModel>, k: int, had: Option<u64>)
    requires
        0 <= k <= args.len(),
        lua_args(args.subrange(0, k), had).0 is None,
    ensures
        lua_args(args, had) == lua_args(args.subrange(0, k), had),
    decreases args.len(),
{
    if k < args.len() {
        assert(args.drop_last().subrange(0, k) =~= args.subrange(0, k));
        argument_failure_stays(args.drop_last(), k, had);
    } else {
        assert(args.subrange(0, k) =~= args);
    }
}

/// Makes Lua values of the arguments of a call.
pub fn to_lua_args(args: &[Value], cache: &mut Option<u64>) -> (r: Result<Vec<LuaData>, String>)
    ensures
        ({
            let made = lua_args(value::value_models(args@), *old(cache));
            &&& *final(cache) == made.1
            &&& match made.0 {
                Some(list) => r matches Ok(out) && lua_models(out@) == list,
                None => r matches Err(message) && message@ == "cached function not found"@,
            }
        }),
{
    let n: usize = args.len();
    let ghost models = value::value_models(args@);
    let mut out: Vec<LuaData> = Vec::new();
    let mut i: usize = 0;
    proof {
        value::value_models_at(args@);
        assert(models.subrange(0, 0) =~= Seq::empty());
        assert(lua_models(out@) =~= Seq::empty());
    }
    while i < n
        invariant
            i <= n,
            n == args@.len(),
            models == value::value_models(args@),
            models.len() == n,
            lua_args(models.subrange(0, i as int), *old(cache)) == (Some(lua_models(out@)), *cache),
        decreases n - i,
    {
        let ghost had = out@;
        proof {
            value::value_models_at(args@);
            assert(models.subrange(0, i + 1).drop_last() =~= models.subrange(0, i as int));
            assert(models.subrange(0, i + 1).last() == args@[i as int].model());
        }
        match abi_to_lua(&args[i], cache) {
            Ok(lua) => {
                out.push(lua);
                proof {
                    assert(lua_models(out@) =~= lua_models(had).push(lua.model()));
                }
            },
            Err(message) => {
                proof {
                    argument_failure_stays(models, i + 1, *old(cache));
                }
                return Err(message);
            },
        }
        i = i + 1;
    }
    proof {
        assert(models.subrange(0, n as int) =~= models);
    }
    Ok(out)
}

/// The function kept after a list of values was read.
pub open spec fn all_kept(list: Seq<LuaModel>, had: Option<u64>) -> Option<u64>
    decreases list.len(),
{
    if list.len() == 0 {
        had
    } else {
        kept_after(list.last(), all_kept(list.drop_last(), had))
    }
}

/// Reads the arguments a plugin passed.
pub fn from_lua_args(args: &Vec<LuaData>, cache: &mut Option<u64>) -> (r: Vec<Value>)
    ensures
        value::value_models(r@) == lua_models(args@).map_values(|lua: LuaModel| value_of_lua(lua)),
        *final(cache) == all_kept(lua_models(args@), *old(cache)),
{
    let n: usize = args.len();
    let ghost models = lua_models(args@);
    let mut out: Vec<Value> = Vec::new();
    let mut i: usize = 0;
    proof {
        assert(models.subrange(0, 0) =~= Seq::empty());
    }
    while i < n
        invariant
            i <= n,
            n == args.len(),
            models == lua_models(args@),
            out@.len() == i,
            forall|k: int| 0 <= k < i ==> (#[trigger] out@[k]).model() == value_of_lua(models[k]),
            *cache == all_kept(models.subrange(0, i as int), *old(cache)),
        decreases n - i,
    {
        proof {
            assert(models.subrange(0, i + 1).drop_last() =~= models.subrange(0, i as int));
            assert(models.subrange(0, i + 1).last() == args@[i as int].model());
        }
        let read = lua_to_abi(&args[i], cache);
        out.push(read);
        i = i + 1;
    }
    proof {
        assert(models.subrange(0, n as int) =~= models);
        value::value_models_at(out@);
        assert(value::value_models(out@) =~= models.map_values(|lua: LuaModel| value_of_lua(lua)));
    }
    out
}

/// Whether a provider was called as a plugin called its capability: in the name of the plugin
/// the grant was issued to, with the parameters policy approved and the arguments it passed.
pub open spec fn called_as(
    call: CapabilityCall,
    capability: Seq<char>,
    grant: Grant,
    args: Seq<LuaModel>,
) -> bool {
    &&& call.plugin@ == grant@.plugin
    &&& call.capability@ == capability
    &&& call.grant.model() == ValueModel::Mapping(value_entries(grant@.params))
    &&& value::value_models(call.args@) == args.map_values(|lua: LuaModel| value_of_lua(lua))
}

/// Whether an answer of a provider reaches the plugin so, given the function kept when the
/// arguments had been read.
pub open spec fn answered_as(
    answer: Result<Value, String>,
    kept: Option<u64>,
    r: Result<LuaData, String>,
    left: Option<u64>,
) -> bool {
    match answer {
        Err(message) => r matches Err(said) && said@ == message@ && left == kept,
        Ok(value) => {
            let made = lua_of(value.model(), kept);
            &&& left == made.1
            &&& match made.0 {
                Some(lua) => r matches Ok(out) && out.model() == lua,
                None => r matches Err(said) && said@ == "cached function not found"@,
            }
        },
    }
}

/// What a plugin gets from a capability it calls: the answer of its provider, which is told
/// who called and what policy approved.
pub fn provide(
    provider: &Box<dyn CapabilityProvider>,
    capability: &str,
    grant: &Grant,
    args: &Vec<LuaData>,
    cache: &mut Option<u64>,
) -> (r: Result<LuaData, String>)
    ensures
        exists|call: CapabilityCall, answer: Result<Value, String>|
            {
                &&& called_as(call, capability@, *grant, lua_models(args@))
                &&& #[trigger] (**provider).answers(&call, answer)
                &&& answered_as(
                    answer,
                    all_kept(lua_models(args@), *old(cache)),
                    r,
                    *final(cache),
                )
            },
{
    let read = from_lua_args(args, cache);
    let call = CapabilityCall {
        plugin: grant.plugin().to_owned(),
        capability: capability.to_owned(),
        grant: value::table_to_map(grant.params()),
        args: read,
    };
    let answer = provider.invoke(&call);
    let ghost said = answer;
    proof {
        assert((**provider).answers(&call, said));
    }
    match answer {
        Err(message) => Err(message),
        Ok(value) => abi_to_lua(&value, cache),
    }
}

} // verus!
