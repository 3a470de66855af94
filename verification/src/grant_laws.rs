//! What holds of capabilities that are asked for, ruled on and bound.

use crate::bridge::{answered_as, called_as};
use crate::callback::{
    foreign_request, listed_verdict, native_verdict, CapabilityCall, Decision as ForeignDecision,
};
use crate::capability::{
    bound_as, bound_upto, declared, fated, granted_by, granted_names, granting, may_rule,
    request_at, requested, requests_of, ruled, says_optional, unoffered, unreserved, Declared, Fate,
    Grant, Policy, Request, Verdict,
};
use crate::failure::{FailureReason, Why};
use crate::lua::{lua_of, value_of_lua, LuaData, LuaModel};
use crate::manifest::{Manifest, Param};
use crate::names::NameMap;
use crate::signature::SignerModel;
use crate::value::{value_models, value_models_at, value_of, TomlModel, Value, ValueModel};
use crate::value_laws::value_entries_at;
use vstd::prelude::*;
use vstd::string::*;

verus! {

/// A policy's word on the parameters is what is bound: those it gave where it gave some, whatever
/// was asked for, and those that were asked for where it granted as asked. The name and the plugin
/// are those of the request.
pub proof fn granted_parameters_are_the_policys(
    request: Request,
    params: Seq<(Seq<char>, TomlModel)>,
)
    ensures
        ruled(request, Verdict::GrantWith(params)) matches Fate::Bind(grant) && grant.params
            == params && grant.name == request.name && grant.plugin == request.plugin,
        ruled(request, Verdict::Grant) matches Fate::Bind(grant) && grant.params == request.params
            && grant.name == request.name && grant.plugin == request.plugin,
{
}

/// Two requests that a policy narrows to the same parameters are bound with the same parameters,
/// whatever they asked for.
pub proof fn what_was_asked_does_not_outlive_narrowing(
    a: Request,
    b: Request,
    params: Seq<(Seq<char>, TomlModel)>,
)
    ensures
        ruled(a, Verdict::GrantWith(params))->Bind_0.params == ruled(
            b,
            Verdict::GrantWith(params),
        )->Bind_0.params,
{
}

/// A refusal binds nothing: it fails the plugin, with the capability and the reason, unless the
/// capability is optional, and then it leaves the name unbound. So does a capability that the host
/// does not offer.
pub proof fn refusals_bind_nothing(request: Request, reason: Seq<char>)
    ensures
        request.optional ==> ruled(request, Verdict::Deny(reason)) is Leave && unoffered(request)
            is Leave,
        !request.optional ==> {
            &&& ruled(request, Verdict::Deny(reason)) matches Fate::Fail(why)
            &&& why == (Why::CapabilityDenied { name: request.name, reason })
            &&& unoffered(request) matches Fate::Fail(unknown)
            &&& unknown == Why::UnknownCapability(request.name)
        },
{
}

/// What is handed to be bound was offered, put to a policy as it was asked for, and granted, with
/// the parameters the policy settled on.
pub proof fn bound_only_on_the_policys_word(
    policy: Option<&Box<dyn Policy>>,
    request: Request,
    offered: bool,
    fate: Fate,
)
    requires
        fated(policy, request, offered, fate),
        fate is Bind,
    ensures
        offered,
        policy is Some,
        fate->Bind_0.plugin == request.plugin,
        fate->Bind_0.name == request.name,
        exists|verdict: Verdict| #[trigger]
            may_rule(policy->0, request, verdict) && match verdict {
                Verdict::Grant => fate->Bind_0.params == request.params,
                Verdict::GrantWith(params) => fate->Bind_0.params == params,
                Verdict::Deny(_) => false,
            },
{
    match policy {
        None => {},
        Some(policy) => {
            let verdict = choose|verdict: Verdict| #[trigger]
                may_rule(policy, request, verdict) && fate == ruled(request, verdict);
            assert(may_rule(policy, request, verdict));
        },
    }
}

/// What is not offered is never bound, and without a policy nothing is.
pub proof fn nothing_is_bound_unasked(
    policy: Option<&Box<dyn Policy>>,
    request: Request,
    offered: bool,
    fate: Fate,
)
    requires
        fated(policy, request, offered, fate),
        !offered || policy is None,
    ensures
        request.optional ==> fate is Leave,
        !request.optional ==> fate is Fail,
{
}

/// Whether the grants of fates were all bound and nothing failed, among the first `n`.
pub open spec fn all_bound(fates: Seq<Fate>, unbound: Seq<Option<Why>>, n: int) -> bool {
    forall|i: int|
        0 <= i < n ==> match #[trigger] fates[i] {
            Fate::Bind(_) => unbound[i] is None,
            Fate::Leave => true,
            Fate::Fail(_) => false,
        }
}

proof fn bound_holds(fates: Seq<Fate>, unbound: Seq<Option<Why>>, n: int)
    requires
        0 <= n <= fates.len(),
        fates.len() == unbound.len(),
    ensures
        bound_upto(fates, unbound, n) is Ok <==> all_bound(fates, unbound, n),
        bound_upto(fates, unbound, n) matches Ok(names) ==> forall|name: Seq<char>|
            #[trigger] names.contains(name) <==> exists|i: int|
                0 <= i < n && (#[trigger] fates[i]) is Bind && fates[i]->Bind_0.name == name,
        bound_upto(fates, unbound, n) matches Err(why) ==> exists|i: int|
            {
                &&& 0 <= i < n
                &&& all_bound(fates, unbound, i)
                &&& match #[trigger] fates[i] {
                    Fate::Fail(said) => why == said,
                    Fate::Bind(_) => unbound[i] == Some(why),
                    Fate::Leave => false,
                }
            },
    decreases n,
{
    if n > 0 {
        bound_holds(fates, unbound, n - 1);
        let less = bound_upto(fates, unbound, n - 1);
        let here = bound_upto(fates, unbound, n);
        if all_bound(fates, unbound, n) {
            assert(all_bound(fates, unbound, n - 1));
            assert(fates[n - 1] is Bind || fates[n - 1] is Leave);
        }
        match here {
            Ok(names) => {
                let had = less->Ok_0;
                assert forall|name: Seq<char>| #[trigger] names.contains(name) <==> exists|i: int|
                    0 <= i < n && (#[trigger] fates[i]) is Bind && fates[i]->Bind_0.name == name by {
                    if names.contains(name) {
                        let k = choose|k: int| 0 <= k < names.len() && names[k] == name;
                        if k < had.len() {
                            assert(had[k] == name);
                            assert(had.contains(name));
                            let i = choose|i: int|
                                0 <= i < n - 1 && (#[trigger] fates[i]) is Bind
                                    && fates[i]->Bind_0.name == name;
                            assert(fates[i] is Bind);
                        } else {
                            assert(fates[n - 1] is Bind);
                        }
                    }
                    if exists|i: int|
                        0 <= i < n && (#[trigger] fates[i]) is Bind && fates[i]->Bind_0.name
                            == name {
                        let i = choose|i: int|
                            0 <= i < n && (#[trigger] fates[i]) is Bind && fates[i]->Bind_0.name
                                == name;
                        if i < n - 1 {
                            assert(had.contains(name));
                            let k = choose|k: int| 0 <= k < had.len() && had[k] == name;
                            assert(names[k] == name);
                        } else {
                            assert(names[names.len() - 1] == name);
                        }
                    }
                }
            },
            Err(why) => {
                match less {
                    Err(_) => {},
                    Ok(_) => {
                        assert(all_bound(fates, unbound, n - 1));
                        assert(match fates[n - 1] {
                            Fate::Fail(said) => why == said,
                            Fate::Bind(_) => unbound[n - 1] == Some(why),
                            Fate::Leave => false,
                        });
                    },
                }
            },
        }
    } else {
        assert forall|name: Seq<char>| !(#[trigger] Seq::<Seq<char>>::empty().contains(name)) by {}
    }
}

/// Granting succeeds exactly when no capability failed the plugin and every grant could be bound,
/// and the names it gives are those that were bound. Where it does not, the reason is that of the
/// first capability that failed or could not be bound, and all before it were bound or left.
pub proof fn granting_names_what_was_bound(fates: Seq<Fate>, unbound: Seq<Option<Why>>)
    requires
        fates.len() == unbound.len(),
    ensures
        bound_upto(fates, unbound, fates.len() as int) is Ok <==> all_bound(
            fates,
            unbound,
            fates.len() as int,
        ),
        bound_upto(fates, unbound, fates.len() as int) matches Ok(names) ==> forall|name: Seq<char>|
            #[trigger] names.contains(name) <==> exists|i: int|
                0 <= i < fates.len() && (#[trigger] fates[i]) is Bind && fates[i]->Bind_0.name
                    == name,
        bound_upto(fates, unbound, fates.len() as int) matches Err(why) ==> exists|i: int|
            {
                &&& 0 <= i < fates.len()
                &&& all_bound(fates, unbound, i)
                &&& match #[trigger] fates[i] {
                    Fate::Fail(said) => why == said,
                    Fate::Bind(_) => unbound[i] == Some(why),
                    Fate::Leave => false,
                }
            },
{
    bound_holds(fates, unbound, fates.len() as int);
}

/// Whether a declaration has a value under a key.
pub open spec fn has_value(params: NameMap<Param>, key: Seq<char>, value: TomlModel) -> bool {
    exists|i: int|
        0 <= i < params.entries@.len() && (#[trigger] params.entries@[i]).0@ == key
            && params.entries@[i].1.value.model() == value
}

proof fn unreserved_holds(all: Seq<Declared>, n: int, entry: Declared)
    requires
        0 <= n <= all.len(),
    ensures
        unreserved(all, n).contains(entry) <==> entry.0 != "optional"@ && exists|i: int|
            0 <= i < n && #[trigger] all[i] == entry,
    decreases n,
{
    if n > 0 {
        unreserved_holds(all, n - 1, entry);
        let less = unreserved(all, n - 1);
        let here = unreserved(all, n);
        if here.contains(entry) {
            let k = choose|k: int| 0 <= k < here.len() && here[k] == entry;
            if k < less.len() {
                assert(less[k] == entry);
                assert(less.contains(entry));
                let i = choose|i: int| 0 <= i < n - 1 && #[trigger] all[i] == entry;
                assert(all[i] == entry);
            } else {
                assert(all[n - 1] == entry);
            }
        }
        if entry.0 != "optional"@ && exists|i: int| 0 <= i < n && #[trigger] all[i] == entry {
            let i = choose|i: int| 0 <= i < n && #[trigger] all[i] == entry;
            if i < n - 1 {
                assert(less.contains(entry));
                let k = choose|k: int| 0 <= k < less.len() && less[k] == entry;
                assert(here[k] == entry);
            } else {
                assert(here[here.len() - 1] == entry);
            }
        }
    } else {
        assert(unreserved(all, 0).len() == 0);
    }
}

/// A request asks for exactly what the manifest declares: every parameter but the reserved
/// `optional`, with its value, and no other; it is optional exactly when the declaration says so;
/// and it is made in the plugin's name and the signer's.
pub proof fn requests_say_what_is_declared(
    manifest: Manifest,
    signer: SignerModel,
    i: int,
    key: Seq<char>,
    value: TomlModel,
)
    requires
        0 <= i < manifest.capabilities@.len(),
    ensures
        requests_of(manifest, signer).len() == manifest.capabilities@.len(),
        ({
            let request = requests_of(manifest, signer)[i];
            let table = manifest.capabilities@[i].1;
            &&& request.plugin == manifest.name@
            &&& request.signer == signer
            &&& request.name == manifest.capabilities@[i].0@
            &&& request.optional <==> has_value(table, "optional"@, TomlModel::Boolean(true))
            &&& request.params.contains((key, value)) <==> key != "optional"@ && has_value(
                table,
                key,
                value,
            )
        }),
{
    let table = manifest.capabilities@[i].1;
    let all = declared(table);
    let request = request_at(manifest, signer, i);
    let kept = requested(all);
    if says_optional(all) {
        let k = choose|k: int|
            0 <= k < all.len() && (#[trigger] all[k]).0 == "optional"@ && all[k].1.0
                == TomlModel::Boolean(true);
        assert(table.entries@[k].0@ == "optional"@);
    }
    if has_value(table, "optional"@, TomlModel::Boolean(true)) {
        let k = choose|k: int|
            0 <= k < table.entries@.len() && (#[trigger] table.entries@[k]).0@ == "optional"@
                && table.entries@[k].1.value.model() == TomlModel::Boolean(true);
        assert(all[k].0 == "optional"@);
    }
    if request.params.contains((key, value)) {
        let k = choose|k: int| 0 <= k < request.params.len() && request.params[k] == (key, value);
        unreserved_holds(all, all.len() as int, kept[k]);
        assert(kept.contains(kept[k]));
        let j = choose|j: int| 0 <= j < all.len() && #[trigger] all[j] == kept[k];
        assert(table.entries@[j].0@ == key);
    }
    if key != "optional"@ && has_value(table, key, value) {
        let j = choose|j: int|
            0 <= j < table.entries@.len() && (#[trigger] table.entries@[j]).0@ == key
                && table.entries@[j].1.value.model() == value;
        let entry = all[j];
        unreserved_holds(all, all.len() as int, entry);
        assert(all[j] == entry);
        let k = choose|k: int| 0 <= k < kept.len() && kept[k] == entry;
        assert(request.params[k] == (key, value));
    }
}

/// What evaluating a policy names is exactly what is asked for, offered and not denied: nothing
/// that was granted is left out.
pub proof fn granted_holds(
    list: Seq<Request>,
    offered: Seq<Seq<char>>,
    answers: Seq<Verdict>,
    n: int,
    name: Seq<char>,
)
    requires
        0 <= n <= list.len(),
        n <= answers.len(),
    ensures
        granted_names(list, offered, answers, n).contains(name) <==> exists|i: int|
            0 <= i < n && (#[trigger] list[i]).name == name && offered.contains(name)
                && !(answers[i] is Deny),
    decreases n,
{
    if n > 0 {
        granted_holds(list, offered, answers, n - 1, name);
        let less = granted_names(list, offered, answers, n - 1);
        let here = granted_names(list, offered, answers, n);
        if here.contains(name) {
            let k = choose|k: int| 0 <= k < here.len() && here[k] == name;
            if k < less.len() {
                assert(less[k] == name);
                assert(less.contains(name));
                let i = choose|i: int|
                    0 <= i < n - 1 && (#[trigger] list[i]).name == name && offered.contains(name)
                        && !(answers[i] is Deny);
                assert(list[i].name == name);
            } else {
                assert(list[n - 1].name == name);
            }
        }
        if exists|i: int|
            0 <= i < n && (#[trigger] list[i]).name == name && offered.contains(name)
                && !(answers[i] is Deny) {
            let i = choose|i: int|
                0 <= i < n && (#[trigger] list[i]).name == name && offered.contains(name)
                    && !(answers[i] is Deny);
            if i < n - 1 {
                assert(less.contains(name));
                let k = choose|k: int| 0 <= k < less.len() && less[k] == name;
                assert(here[k] == name);
            } else {
                assert(here[here.len() - 1] == name);
            }
        }
    } else {
        assert(granted_names(list, offered, answers, 0).len() == 0);
    }
}

/// Evaluating a policy names a capability only where it is declared, offered, and granted by the
/// policy that there is.
pub proof fn evaluated_names_are_granted(
    policy: Option<&Box<dyn Policy>>,
    list: Seq<Request>,
    offered: Seq<Seq<char>>,
    names: Seq<Seq<char>>,
    name: Seq<char>,
)
    requires
        granted_by(policy, list, offered, names),
        names.contains(name),
    ensures
        offered.contains(name),
        policy is Some,
        exists|i: int, verdict: Verdict|
            0 <= i < list.len() && list[i].name == name && !(verdict is Deny) && #[trigger] may_rule(
                policy->0,
                list[i],
                verdict,
            ),
{
    let answers = choose|answers: Seq<Verdict>|
        {
            &&& answers.len() == list.len()
            &&& #[trigger] crate::capability::answered(policy, list, offered, answers)
            &&& names == granted_names(list, offered, answers, answers.len() as int)
        };
    granted_holds(list, offered, answers, list.len() as int, name);
    let i = choose|i: int|
        0 <= i < list.len() && (#[trigger] list[i]).name == name && offered.contains(name) && !(
        answers[i] is Deny);
    let verdict = answers[i];
    assert(offered.contains(list[i].name));
    assert(policy is Some);
    assert(may_rule(policy->0, list[i], verdict));
}

/// An allow-list grants what it names and nothing else.
pub proof fn a_list_grants_what_it_names(names: Seq<Seq<char>>, capability: Seq<char>)
    ensures
        listed_verdict(names, capability) is Grant <==> names.contains(capability),
        listed_verdict(names, capability) is Deny <==> !names.contains(capability),
{
}

/// A foreign policy is asked about the request that was made: the same plugin, capability and
/// optionality, and every parameter under its name.
pub proof fn foreign_requests_are_the_same(request: Request)
    ensures
        foreign_request(request).plugin == request.plugin,
        foreign_request(request).capability == request.name,
        foreign_request(request).optional == request.optional,
        foreign_request(request).params matches ValueModel::Mapping(entries) && entries.len()
            == request.params.len() && forall|i: int|
            0 <= i < entries.len() ==> #[trigger] entries[i] == (
                request.params[i].0,
                crate::value::value_of(request.params[i].1),
            ),
{
    crate::value_laws::value_entries_at(request.params);
}

/// A foreign refusal stays the refusal it was, and a narrowed grant is never widened to what was
/// asked for.
pub proof fn foreign_answers_keep_their_sense(decision: ForeignDecision)
    ensures
        match decision {
            ForeignDecision::Grant => native_verdict(decision) is Grant,
            ForeignDecision::Deny(reason) => native_verdict(decision) == Verdict::Deny(reason@),
            ForeignDecision::GrantWith(_) => !(native_verdict(decision) is Grant),
        },
{
}

/// What is offered and put to a policy is bound unless the policy denies it: then an optional one
/// is left, and one that is not fails the plugin with the policy's reason.
pub proof fn only_a_denial_keeps_from_binding(
    policy: &Box<dyn Policy>,
    request: Request,
    fate: Fate,
)
    requires
        fated(Some(policy), request, true, fate),
        !(fate is Bind),
    ensures
        exists|reason: Seq<char>| #[trigger]
            may_rule(policy, request, Verdict::Deny(reason)) && if request.optional {
                fate is Leave
            } else {
                fate == Fate::Fail(Why::CapabilityDenied { name: request.name, reason })
            },
{
    let verdict = choose|verdict: Verdict| #[trigger]
        may_rule(policy, request, verdict) && fate == ruled(request, verdict);
    let reason = verdict->Deny_0;
    assert(may_rule(policy, request, Verdict::Deny(reason)));
}

/// A provider is told who calls and what policy approved, and gets the arguments one for one.
pub proof fn a_provider_is_told_what_was_approved(
    call: CapabilityCall,
    capability: Seq<char>,
    grant: Grant,
    args: Seq<LuaModel>,
)
    requires
        called_as(call, capability, grant, args),
    ensures
        call.plugin@ == grant@.plugin,
        call.capability@ == capability,
        call.args@.len() == args.len(),
        forall|i: int|
            0 <= i < args.len() ==> (#[trigger] call.args@[i]).model() == value_of_lua(args[i]),
        call.grant.model() matches ValueModel::Mapping(entries) && entries.len()
            == grant@.params.len() && forall|i: int|
            0 <= i < entries.len() ==> (#[trigger] entries[i]).0 == grant@.params[i].0 && entries[i].1
                == value_of(grant@.params[i].1),
{
    value_models_at(call.args@);
    value_entries_at(grant@.params);
    assert(value_models(call.args@).len() == args.len());
    assert forall|i: int| 0 <= i < args.len() implies (#[trigger] call.args@[i]).model()
        == value_of_lua(args[i]) by {
        assert(value_models(call.args@)[i] == value_of_lua(args[i]));
    }
}

/// A provider's answer reaches the plugin: an error as it was said, and a value as it goes to Lua.
pub proof fn an_answer_reaches_the_plugin(
    answer: Result<Value, String>,
    kept: Option<u64>,
    r: Result<LuaData, String>,
    left: Option<u64>,
)
    requires
        answered_as(answer, kept, r, left),
    ensures
        answer matches Err(message) ==> (r matches Err(said) && said@ == message@) && left == kept,
        answer matches Ok(value) ==> match lua_of(value.model(), kept).0 {
            Some(lua) => r matches Ok(out) && out.model() == lua,
            None => r is Err,
        },
{
}

/// What is bound is handed over to be bound as it was granted: to the plugin that asked, under the
/// name it asked for, which the host offers and a policy ruled on.
pub proof fn what_is_bound_is_handed_over<F: Fn(&Grant) -> Option<FailureReason>>(
    policy: Option<&Box<dyn Policy>>,
    bind: F,
    list: Seq<Request>,
    offered: Seq<Seq<char>>,
    fates: Seq<Fate>,
    unbound: Seq<Option<Why>>,
    i: int,
)
    requires
        granting(policy, bind, list, offered, fates, unbound),
        0 <= i < fates.len(),
        fates[i] is Bind,
    ensures
        policy is Some,
        offered.contains(list[i].name),
        exists|grant: Grant, failure: Option<FailureReason>|
            {
                &&& #[trigger] call_ensures(bind, (&grant,), failure)
                &&& grant@ == fates[i]->Bind_0
                &&& grant@.name == list[i].name
                &&& grant@.plugin == list[i].plugin
                &&& failure is None <==> unbound[i] is None
            },
{
    assert(fated(policy, list[i], offered.contains(list[i].name), fates[i]));
    bound_only_on_the_policys_word(policy, list[i], offered.contains(list[i].name), fates[i]);
    assert(bound_as(bind, fates[i], unbound[i]));
}

} // verus!
