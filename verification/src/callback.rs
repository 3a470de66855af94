//! Letting foreign code decide policy and answer capabilities.
//!
//! A foreign host sees requests and answers in dynamic values. What it answers is brought
//! back to the registry's own terms: a narrowed grant has to be a map of parameters that TOML
//! can hold, and anything else is a refusal.

use crate::capability;
use crate::capability::{not_granted, not_granted_text, Request, Verdict};
use crate::resolve::holds_name;
use crate::signature::signer_text;
use crate::text;
use crate::value;
use crate::value::{toml_of, value_entries, Toml, TomlModel, Value, ValueModel};
use vstd::prelude::*;
use vstd::string::*;

verus! {

/// What a plugin asked for, as a foreign policy sees it.
#[derive(Debug, PartialEq)]
pub struct CapabilityRequest {
    /// Plugin making the request.
    pub plugin: String,
    /// Capability name.
    pub capability: String,
    /// Parameters declared in the plugin's manifest.
    pub params: Value,
    /// Whether the plugin still loads if this is denied.
    pub optional: bool,
    /// Who signed the plugin, rendered for display; `"unsigned"` when no signature was
    /// present.
    pub signer: String,
}

/// What a foreign request is, apart from how it is stored.
pub struct ForeignRequest {
    pub plugin: Seq<char>,
    pub capability: Seq<char>,
    pub params: ValueModel,
    pub optional: bool,
    pub signer: Seq<char>,
}

impl View for CapabilityRequest {
    type V = ForeignRequest;

    open spec fn view(&self) -> ForeignRequest {
        ForeignRequest {
            plugin: self.plugin@,
            capability: self.capability@,
            params: self.params.model(),
            optional: self.optional,
            signer: self.signer@,
        }
    }
}

/// A policy's answer to one request.
#[derive(Debug, PartialEq)]
pub enum Decision {
    /// Grant exactly what was asked for.
    Grant,
    /// Grant, but with these parameters instead of the requested ones. Must be a map.
    GrantWith(Value),
    /// Refuse, with a reason the plugin author will see.
    Deny(String),
}

/// A plugin reaching back into the host through a granted capability.
#[derive(Debug, PartialEq)]
pub struct CapabilityCall {
    /// Plugin making the call.
    pub plugin: String,
    /// Capability it was granted.
    pub capability: String,
    /// The parameters policy actually approved, so that a provider can re-check its own
    /// bounds.
    pub grant: Value,
    /// Arguments the plugin passed.
    pub args: Vec<Value>,
}

/// Decides what each plugin may actually have.
pub trait Policy: Send + Sync {
    /// Whether a request may be ruled on so: any ruling may come where a policy does not say
    /// more.
    open spec fn rules(&self, request: &CapabilityRequest, r: Decision) -> bool {
        true
    }

    /// Rules on one request.
    fn decide(&self, request: &CapabilityRequest) -> (r: Decision)
        ensures
            self.rules(request, r),
    ;
}

/// Answers a capability a plugin calls.
pub trait CapabilityProvider: Send + Sync {
    /// Whether a call may be answered so: any answer may come where a provider does not say
    /// more.
    open spec fn answers(&self, call: &CapabilityCall, r: Result<Value, String>) -> bool {
        true
    }

    /// Does whatever the capability offers, and answers the plugin.
    fn invoke(&self, call: &CapabilityCall) -> (r: Result<Value, String>)
        ensures
            self.answers(call, r),
    ;
}

/// A policy that grants exactly the capabilities it was built from.
#[derive(Debug, PartialEq, Eq)]
pub struct AllowList {
    allowed: Vec<String>,
}

impl AllowList {
    pub closed spec fn names(self) -> Seq<Seq<char>> {
        text::texts(self.allowed@)
    }

    pub fn new(allowed: Vec<String>) -> (r: AllowList)
        ensures
            r.names() == text::texts(allowed@),
    {
        AllowList { allowed }
    }

    /// Grants what the list names and refuses everything else.
    pub fn decide(&self, request: &CapabilityRequest) -> (r: Decision)
        ensures
            self.names().contains(request.capability@) ==> r == Decision::Grant,
            !self.names().contains(request.capability@) ==> (r matches Decision::Deny(reason)
                && reason@ == not_granted(request.capability@)),
    {
        if holds_name(&self.allowed, request.capability.as_str()) {
            Decision::Grant
        } else {
            Decision::Deny(not_granted_text(request.capability.as_str()))
        }
    }
}

impl Policy for AllowList {
    open spec fn rules(&self, request: &CapabilityRequest, r: Decision) -> bool {
        if self.names().contains(request.capability@) {
            r == Decision::Grant
        } else {
            r matches Decision::Deny(reason) && reason@ == not_granted(request.capability@)
        }
    }

    fn decide(&self, request: &CapabilityRequest) -> (r: Decision) {
        AllowList::decide(self, request)
    }
}

/// Who signed the requesting plugin, rendered for display.
pub fn signer_of(request: &capability::CapabilityRequest) -> (r: String)
    ensures
        r@ == signer_text(request@.signer),
{
    request.signer.to_string()
}

/// A request as a foreign policy sees it.
pub open spec fn foreign_request(request: Request) -> ForeignRequest {
    ForeignRequest {
        plugin: request.plugin,
        capability: request.name,
        params: ValueModel::Mapping(value_entries(request.params)),
        optional: request.optional,
        signer: signer_text(request.signer),
    }
}

/// A request as a foreign policy sees it.
pub fn bridge_request(request: &capability::CapabilityRequest) -> (r: CapabilityRequest)
    ensures
        r@ == foreign_request(request@),
{
    CapabilityRequest {
        plugin: request.plugin.clone(),
        capability: request.name.clone(),
        params: value::table_to_map(&request.params),
        optional: request.optional,
        signer: signer_of(request),
    }
}

/// A foreign answer in the registry's own terms.
pub open spec fn native_verdict(decision: Decision) -> Verdict {
    match decision {
        Decision::Grant => Verdict::Grant,
        Decision::Deny(reason) => Verdict::Deny(reason@),
        Decision::GrantWith(value) => match toml_of(value.model()) {
            Ok(TomlModel::Table(entries)) => Verdict::GrantWith(entries),
            Ok(_) => Verdict::Deny("a narrowed grant must be a map of parameters"@),
            Err(reason) => Verdict::Deny(reason),
        },
    }
}

/// A foreign answer in the registry's own terms: a narrowed grant that is no map of
/// parameters, or that TOML cannot hold, is a refusal.
pub fn bridge_decision(decision: Decision) -> (r: capability::Decision)
    ensures
        r@ == native_verdict(decision),
{
    match decision {
        Decision::Grant => capability::Decision::Grant,
        Decision::Deny(reason) => capability::Decision::Deny(reason),
        Decision::GrantWith(value) => match value::value_to_toml(&value) {
            Ok(toml) => match toml {
                Toml::Table(table) => capability::Decision::GrantWith(table),
                _ => capability::Decision::Deny(
                    "a narrowed grant must be a map of parameters".to_owned(),
                ),
            },
            Err(reason) => capability::Decision::Deny(reason),
        },
    }
}

/// Bridges a foreign [`Policy`] onto the registry's own.
pub struct PolicyBridge {
    pub inner: Box<dyn Policy>,
}

/// Whether a foreign policy that is asked in foreign terms may rule so in native ones.
pub open spec fn bridged(inner: &Box<dyn Policy>, request: Request, verdict: Verdict) -> bool {
    exists|asked: CapabilityRequest, decision: Decision|
        {
            &&& asked@ == foreign_request(request)
            &&& #[trigger] (**inner).rules(&asked, decision)
            &&& verdict == native_verdict(decision)
        }
}

impl capability::Policy for PolicyBridge {
    /// The foreign policy is asked in foreign terms, and its answer taken in native ones.
    open spec fn rules(
        &self,
        request: &capability::CapabilityRequest,
        r: capability::Decision,
    ) -> bool {
        bridged(&self.inner, request@, r@)
    }

    fn decide(&self, request: &capability::CapabilityRequest) -> (r: capability::Decision) {
        let asked = bridge_request(request);
        let decision = self.inner.decide(&asked);
        let ghost said = decision;
        proof {
            assert((*self.inner).rules(&asked, said));
        }
        bridge_decision(decision)
    }
}

/// What a policy that failed to answer is taken to have said: a host whose policy is broken
/// refuses rather than crashes.
pub fn policy_raised(message: &str) -> (r: Decision)
    ensures
        r matches Decision::Deny(reason) && reason@ == "the policy raised: "@ + message@,
{
    let mut out = "the policy raised: ".to_owned();
    out.append(message);
    Decision::Deny(out)
}

/// A foreign answer never becomes more than it was: only a grant is a grant, and a narrowed
/// grant keeps the parameters it was given, without those that are `nil`.
pub proof fn bridged_grants_are_grants(decision: Decision)
    ensures
        native_verdict(decision) is Grant <==> decision is Grant,
        decision is Deny ==> native_verdict(decision) is Deny,
        native_verdict(decision) matches Verdict::GrantWith(entries) ==> {
            &&& decision is GrantWith
            &&& value::value_of(TomlModel::Table(entries)) == value::without_nils(
                decision->GrantWith_0.model(),
            )
        },
{
    if decision is GrantWith {
        value::value_round_trip(decision->GrantWith_0.model());
    }
}

/// What an allow-list says of a request.
pub open spec fn listed_verdict(names: Seq<Seq<char>>, capability: Seq<char>) -> Verdict {
    if names.contains(capability) {
        Verdict::Grant
    } else {
        Verdict::Deny(not_granted(capability))
    }
}

impl PolicyBridge {
    /// The policy that grants what a list names and refuses everything else.
    pub fn listed(allowed: Vec<String>) -> (r: PolicyBridge)
        ensures
            forall|request: capability::CapabilityRequest, decision: capability::Decision| #[trigger]
                capability::Policy::rules(&r, &request, decision) ==> decision@ == listed_verdict(
                    text::texts(allowed@),
                    request.name@,
                ),
    {
        let list = AllowList::new(allowed);
        let ghost names = list.names();
        let bridge = PolicyBridge { inner: Box::new(list) };
        proof {
            assert forall|asked: CapabilityRequest, said: Decision| #[trigger]
                (*bridge.inner).rules(&asked, said) implies native_verdict(said)
                == listed_verdict(names, asked.capability@) by {
            }
            assert forall|
                request: capability::CapabilityRequest,
                decision: capability::Decision,
            | #[trigger]
                capability::Policy::rules(&bridge, &request, decision) implies decision@
                == listed_verdict(names, request.name@) by {
                assert(exists|asked: CapabilityRequest, said: Decision|
                    {
                        &&& asked@ == foreign_request(request@)
                        &&& #[trigger] (*bridge.inner).rules(&asked, said)
                        &&& decision@ == native_verdict(said)
                    });
            }
        }
        bridge
    }
}

} // verus!
