//! Declared capabilities: what a plugin asks for, what the host grants.
//!
//! A plugin requests capabilities in its manifest, the host declares what it can offer, and
//! a [`Policy`] decides, per plugin, what is actually granted. Offering a capability is not
//! granting it: without a policy, or without a rule for it, it is refused.

use crate::failure::{FailureReason, Why};
use crate::manifest::{Manifest, Param};
use crate::names;
use crate::names::NameMap;
use crate::signature::{Signer, SignerModel};
use crate::text;
use crate::value;
use crate::value::{table_model, Toml, TomlModel};
use vstd::prelude::*;
use vstd::string::*;

verus! {

/// Manifest key reserved by the registry rather than passed to a provider.
pub const OPTIONAL_KEY: &'static str = "optional";

/// A declared parameter: its key, its value and the value as TOML writes it.
pub type Declared = (Seq<char>, (TomlModel, Seq<char>));

/// The parameters of a declaration.
pub open spec fn declared(params: NameMap<Param>) -> Seq<Declared> {
    params.entries@.map_values(|e: (String, Param)| (e.0@, (e.1.value.model(), e.1.text@)))
}

/// The first `n` parameters without the reserved key.
pub open spec fn unreserved(params: Seq<Declared>, n: int) -> Seq<Declared>
    decreases n,
{
    if n <= 0 {
        Seq::empty()
    } else if params[n - 1].0 == "optional"@ {
        unreserved(params, n - 1)
    } else {
        unreserved(params, n - 1).push(params[n - 1])
    }
}

/// The parameters of a declaration without the reserved key.
pub open spec fn requested(params: Seq<Declared>) -> Seq<Declared> {
    unreserved(params, params.len() as int)
}

/// Whether a declaration says that the plugin still loads without it.
pub open spec fn says_optional(params: Seq<Declared>) -> bool {
    exists|i: int|
        0 <= i < params.len() && (#[trigger] params[i]).0 == "optional"@ && params[i].1.0
            == TomlModel::Boolean(true)
}

/// The values of declared parameters.
pub open spec fn values(params: Seq<Declared>) -> Seq<(Seq<char>, TomlModel)> {
    params.map_values(|p: Declared| (p.0, p.1.0))
}

/// Whether a name is one of the first `n`.
spec fn among(list: Seq<Seq<char>>, n: int, name: Seq<char>) -> bool {
    exists|j: int| 0 <= j < n && #[trigger] list[j] == name
}

/// Splits the reserved `optional` key off a manifest capability declaration.
pub fn split_optional(params: &NameMap<Param>) -> (r: (NameMap<Param>, bool))
    requires
        params.wf(),
    ensures
        r.0.wf(),
        declared(r.0) == requested(declared(*params)),
        r.1 == says_optional(declared(*params)),
{
    let n: usize = params.entries.len();
    let ghost all = declared(*params);
    let mut out: Vec<(String, Param)> = Vec::new();
    let mut optional = false;
    let mut i: usize = 0;
    proof {
        assert(declared(NameMap { entries: out }) =~= unreserved(all, 0));
    }
    while i < n
        invariant
            n == params.entries.len(),
            params.wf(),
            all == declared(*params),
            i <= n,
            declared(NameMap { entries: out }) == unreserved(all, i as int),
            names::rising(names::keys(out@)),
            forall|k: int|
                0 <= k < out@.len() ==> among(params.keys(), i as int, (#[trigger] out@[k]).0@),
            optional <==> exists|j: int|
                0 <= j < i && (#[trigger] all[j]).0 == "optional"@ && all[j].1.0
                    == TomlModel::Boolean(true),
        decreases n - i,
    {
        let entry = &params.entries[i];
        proof {
            assert(all[i as int] == (entry.0@, (entry.1.value.model(), entry.1.text@)));
        }
        if text::same(entry.0.as_str(), "optional") {
            match &entry.1.value {
                Toml::Boolean(flag) => {
                    if *flag {
                        optional = true;
                    }
                    proof {
                        assert(all[i as int].1.0 == TomlModel::Boolean(*flag));
                    }
                },
                _ => {},
            }
        } else {
            let ghost had = declared(NameMap { entries: out });
            let ghost keys_then = names::keys(out@);
            let ghost out_then = out@;
            let param = Param { value: entry.1.value.clone(), text: entry.1.text.clone() };
            out.push((entry.0.clone(), param));
            proof {
                assert(declared(NameMap { entries: out }) =~= had.push(all[i as int]));
                assert(names::keys(out@) =~= keys_then.push(entry.0@));
                assert forall|a: int, b: int| 0 <= a < b < names::keys(out@).len() implies names::before(
                    #[trigger] names::keys(out@)[a],
                    #[trigger] names::keys(out@)[b],
                ) by {
                    if b < keys_then.len() {
                        assert(keys_then[a] == names::keys(out@)[a]);
                        assert(keys_then[b] == names::keys(out@)[b]);
                    } else {
                        assert(among(params.keys(), i as int, out_then[a].0@));
                        let j = choose|j: int|
                            0 <= j < i && #[trigger] params.keys()[j] == out_then[a].0@;
                        assert(params.keys()[i as int] == entry.0@);
                        assert(names::before(params.keys()[j], params.keys()[i as int]));
                    }
                }
                assert forall|k: int| 0 <= k < out@.len() implies among(
                    params.keys(),
                    i + 1,
                    (#[trigger] out@[k]).0@,
                ) by {
                    if k < out_then.len() {
                        assert(among(params.keys(), i as int, out_then[k].0@));
                    } else {
                        assert(params.keys()[i as int] == out@[k].0@);
                    }
                }
            }
        }
        i = i + 1;
    }
    (NameMap { entries: out }, optional)
}

/// The values of parameters, without how they are written.
pub fn param_values(params: &NameMap<Param>) -> (r: NameMap<Toml>)
    ensures
        table_model(r) == values(declared(*params)),
        r.keys() == params.keys(),
{
    let n: usize = params.entries.len();
    let ghost all = values(declared(*params));
    let mut out: Vec<(String, Toml)> = Vec::new();
    let mut i: usize = 0;
    while i < n
        invariant
            n == params.entries.len(),
            i <= n,
            all == values(declared(*params)),
            out@.len() == i,
            forall|k: int|
                0 <= k < i ==> ((#[trigger] out@[k]).0@, out@[k].1.model()) == all[k] && out@[k].0@
                    == params.keys()[k],
        decreases n - i,
    {
        let entry = &params.entries[i];
        out.push((entry.0.clone(), entry.1.value.clone()));
        i = i + 1;
    }
    let done = NameMap { entries: out };
    proof {
        value::toml_entry_models_at(out@);
        assert(table_model(done) =~= all);
        assert(done.keys() =~= params.keys());
    }
    done
}

/// The approved parameters for one capability.
///
/// These are what the [`Policy`] allowed, which may be narrower than what the plugin asked
/// for. A provider should build its value from these and nothing else.
#[derive(Debug, PartialEq)]
pub struct Grant {
    plugin: String,
    name: String,
    params: NameMap<Toml>,
}

/// What a grant is, apart from how it is stored.
pub struct Granted {
    pub plugin: Seq<char>,
    pub name: Seq<char>,
    pub params: Seq<(Seq<char>, TomlModel)>,
}

impl View for Grant {
    type V = Granted;

    closed spec fn view(&self) -> Granted {
        Granted { plugin: self.plugin@, name: self.name@, params: table_model(self.params) }
    }
}

impl Grant {
    pub fn new(plugin: String, name: String, params: NameMap<Toml>) -> (r: Grant)
        ensures
            r@ == (Granted { plugin: plugin@, name: name@, params: table_model(params) }),
    {
        Grant { plugin, name, params }
    }

    /// The plugin this grant was issued to.
    pub fn plugin(&self) -> (r: &str)
        ensures
            r@ == self@.plugin,
    {
        self.plugin.as_str()
    }

    /// The capability name.
    pub fn name(&self) -> (r: &str)
        ensures
            r@ == self@.name,
    {
        self.name.as_str()
    }

    /// The approved parameters, as they will be seen by the provider.
    pub fn params(&self) -> (r: &NameMap<Toml>)
        ensures
            table_model(*r) == self@.params,
    {
        &self.params
    }
}

/// What a plugin asked for, before any policy ran.
#[derive(Debug, PartialEq)]
pub struct CapabilityRequest {
    /// Plugin making the request.
    pub plugin: String,
    /// Who signed the plugin, so policy can grant by provenance.
    pub signer: Signer,
    /// Capability name.
    pub name: String,
    /// Parameters declared in the manifest, with `optional` removed.
    pub params: NameMap<Toml>,
    /// Whether the plugin still loads if this is denied.
    pub optional: bool,
}

/// What a request is, apart from how it is stored.
pub struct Request {
    pub plugin: Seq<char>,
    pub signer: SignerModel,
    pub name: Seq<char>,
    pub params: Seq<(Seq<char>, TomlModel)>,
    pub optional: bool,
}

impl View for CapabilityRequest {
    type V = Request;

    open spec fn view(&self) -> Request {
        Request {
            plugin: self.plugin@,
            signer: self.signer@,
            name: self.name@,
            params: table_model(self.params),
            optional: self.optional,
        }
    }
}

impl CapabilityRequest {
    /// Who signed the requesting plugin.
    pub fn signer(&self) -> (r: &Signer)
        ensures
            r@ == self@.signer,
    {
        &self.signer
    }
}

/// A policy's answer to one request.
#[derive(Debug, PartialEq)]
pub enum Decision {
    /// Grant exactly what was asked for.
    Grant,
    /// Grant, but with these parameters instead of the requested ones.
    GrantWith(NameMap<Toml>),
    /// Refuse, with a reason the plugin author will see.
    Deny(String),
}

/// What a decision is, apart from how it is stored.
pub enum Verdict {
    Grant,
    GrantWith(Seq<(Seq<char>, TomlModel)>),
    Deny(Seq<char>),
}

impl View for Decision {
    type V = Verdict;

    open spec fn view(&self) -> Verdict {
        match *self {
            Decision::Grant => Verdict::Grant,
            Decision::GrantWith(params) => Verdict::GrantWith(table_model(params)),
            Decision::Deny(reason) => Verdict::Deny(reason@),
        }
    }
}

impl Decision {
    /// Denies with a stock reason.
    pub fn deny(reason: &str) -> (r: Decision)
        ensures
            r@ == Verdict::Deny(reason@),
    {
        Decision::Deny(reason.to_owned())
    }
}

/// Decides what each plugin may actually have.
///
/// The registry denies by default: a capability with a registered provider is still refused
/// unless a policy grants it.
pub trait Policy: Send + Sync {
    /// Whether a request may be ruled on so: any ruling may come where a policy does not say
    /// more.
    open spec fn rules(&self, request: &CapabilityRequest, r: Decision) -> bool {
        true
    }

    /// Rules on one request.
    fn decide(&self, request: &CapabilityRequest) -> (r: Decision)
        ensures
            self.rules(request, r),
    ;
}

/// Whether a policy may rule so on a request.
pub open spec fn may_rule(policy: &Box<dyn Policy>, request: Request, verdict: Verdict) -> bool {
    exists|asked: CapabilityRequest, decision: Decision|
        asked@ == request && decision@ == verdict && #[trigger] (**policy).rules(&asked, decision)
}

/// The refusal of a capability that no rule names.
pub open spec fn not_granted(name: Seq<char>) -> Seq<char> {
    "`"@ + name + "` is not granted by policy"@
}

/// The refusal of a capability that no rule names.
pub fn not_granted_text(name: &str) -> (r: String)
    ensures
        r@ == not_granted(name@),
{
    let mut out = "`".to_owned();
    out.append(name);
    out.append("` is not granted by policy");
    out
}

/// How one capability is ruled on.
pub enum Rule {
    /// As it was asked for, to any plugin.
    Grant,
    /// Request by request.
    Ask(Box<dyn Policy>),
}

/// A policy built from per-capability rules.
pub struct Rules {
    rules: NameMap<Rule>,
}

impl Rules {
    #[verifier::type_invariant]
    closed spec fn valid(self) -> bool {
        self.rules.wf()
    }

    /// The rule for a capability.
    pub closed spec fn rule(self, name: Seq<char>) -> Option<Rule> {
        self.rules.at(name)
    }

    /// A policy that refuses everything; add rules to open specific capabilities.
    pub fn deny_all() -> (r: Rules)
        ensures
            forall|name: Seq<char>| #[trigger] r.rule(name) is None,
    {
        Rules { rules: NameMap::new() }
    }

    /// Grants this capability exactly as requested, to any plugin.
    pub fn allow(self, name: &str) -> (r: Rules)
        ensures
            r.rule(name@) == Some(Rule::Grant),
            forall|other: Seq<char>|
                other != name@ ==> #[trigger] r.rule(other) == self.rule(other),
    {
        proof {
            use_type_invariant(&self);
        }
        let mut rules = self.rules;
        rules.insert(name.to_owned(), Rule::Grant);
        Rules { rules }
    }

    /// Decides this capability per request, so parameters can be narrowed.
    pub fn allow_with(self, name: &str, rule: Box<dyn Policy>) -> (r: Rules)
        ensures
            r.rule(name@) == Some(Rule::Ask(rule)),
            forall|other: Seq<char>|
                other != name@ ==> #[trigger] r.rule(other) == self.rule(other),
    {
        proof {
            use_type_invariant(&self);
        }
        let mut rules = self.rules;
        rules.insert(name.to_owned(), Rule::Ask(rule));
        Rules { rules }
    }

    /// Rules on one request: what no rule names is refused.
    pub fn decide(&self, request: &CapabilityRequest) -> (r: Decision)
        ensures
            self.rule(request.name@) is None ==> r@ == Verdict::Deny(not_granted(request.name@)),
            self.rule(request.name@) == Some(Rule::Grant) ==> r@ == Verdict::Grant,
            self.rule(request.name@) matches Some(Rule::Ask(policy)) ==> (*policy).rules(request, r),
    {
        proof {
            use_type_invariant(self);
        }
        match self.rules.get(request.name.as_str()) {
            Some(rule) => match rule {
                Rule::Grant => Decision::Grant,
                Rule::Ask(policy) => policy.decide(request),
            },
            None => Decision::Deny(not_granted_text(request.name.as_str())),
        }
    }
}

impl Policy for Rules {
    open spec fn rules(&self, request: &CapabilityRequest, r: Decision) -> bool {
        match self.rule(request.name@) {
            None => r@ == Verdict::Deny(not_granted(request.name@)),
            Some(Rule::Grant) => r@ == Verdict::Grant,
            Some(Rule::Ask(policy)) => (*policy).rules(request, r),
        }
    }

    fn decide(&self, request: &CapabilityRequest) -> (r: Decision) {
        Rules::decide(self, request)
    }
}

/// What the host offers plugins: a provider for each capability, and what is installed into
/// every plugin state, gated by nothing.
pub struct HostSetup<P, A> {
    providers: NameMap<P>,
    ambient: Vec<(String, A)>,
}

impl<P, A> HostSetup<P, A> {
    #[verifier::type_invariant]
    closed spec fn valid(self) -> bool {
        self.providers.wf()
    }

    /// The provider of a capability.
    pub closed spec fn provides(self, name: Seq<char>) -> Option<P> {
        self.providers.at(name)
    }

    /// The names of the capabilities, in order.
    pub closed spec fn offers(self) -> Seq<Seq<char>> {
        self.providers.keys()
    }

    /// What is installed into every state.
    pub closed spec fn installs(self) -> Seq<(String, A)> {
        self.ambient@
    }

    /// A host that offers nothing.
    pub fn new() -> (r: Self)
        ensures
            forall|name: Seq<char>| #[trigger] r.provides(name) is None,
            r.offers().len() == 0,
            r.installs().len() == 0,
    {
        HostSetup { providers: NameMap::new(), ambient: Vec::new() }
    }

    /// Offers a capability plugins may declare. Registering it does not grant it.
    pub fn capability(self, name: &str, provider: P) -> (r: Self)
        ensures
            r.provides(name@) == Some(provider),
            forall|other: Seq<char>|
                other != name@ ==> #[trigger] r.provides(other) == self.provides(other),
            r.installs() == self.installs(),
    {
        proof {
            use_type_invariant(&self);
        }
        let HostSetup { mut providers, ambient } = self;
        providers.insert(name.to_owned(), provider);
        HostSetup { providers, ambient }
    }

    /// Installs something into every plugin state. `label` is what an audit reports.
    pub fn ambient(self, label: &str, install: A) -> (r: Self)
        ensures
            forall|name: Seq<char>| #[trigger] r.provides(name) == self.provides(name),
            r.offers() == self.offers(),
            r.installs().len() == self.installs().len() + 1,
            r.installs().drop_last() == self.installs(),
            r.installs().last().0@ == label@,
            r.installs().last().1 == install,
    {
        proof {
            use_type_invariant(&self);
        }
        let HostSetup { providers, mut ambient } = self;
        let ghost had = ambient@;
        ambient.push((label.to_owned(), install));
        proof {
            assert(ambient@.drop_last() =~= had);
        }
        HostSetup { providers, ambient }
    }

    /// Names of every capability the host can provide.
    pub fn offered(&self) -> (r: Vec<String>)
        ensures
            text::texts(r@) == self.offers(),
            names::rising(self.offers()),
            forall|name: Seq<char>|
                self.offers().contains(name) <==> #[trigger] self.provides(name) is Some,
    {
        proof {
            use_type_invariant(self);
        }
        let n: usize = self.providers.entries.len();
        let mut out: Vec<String> = Vec::new();
        let mut i: usize = 0;
        while i < n
            invariant
                n == self.providers.entries.len(),
                i <= n,
                out@.len() == i,
                forall|k: int| 0 <= k < i ==> (#[trigger] out@[k])@ == self.offers()[k],
            decreases n - i,
        {
            out.push(self.providers.entries[i].0.clone());
            i = i + 1;
        }
        proof {
            assert(text::texts(out@) =~= self.offers());
            assert forall|name: Seq<char>| self.offers().contains(name) <==> #[trigger]
                self.provides(name) is Some by {
                if self.offers().contains(name) {
                    let k = choose|k: int| 0 <= k < self.offers().len() && self.offers()[k] == name;
                    self.providers.at_place(k);
                }
                if self.provides(name) is Some {
                    let k = self.providers.place(name);
                    assert(self.offers()[k] == name);
                }
            }
        }
        out
    }

    /// Labels of everything installed ambiently.
    pub fn ambient_labels(&self) -> (r: Vec<String>)
        ensures
            text::texts(r@) == self.installs().map_values(|e: (String, A)| e.0@),
    {
        let n: usize = self.ambient.len();
        let mut out: Vec<String> = Vec::new();
        let mut i: usize = 0;
        while i < n
            invariant
                n == self.ambient.len(),
                i <= n,
                out@.len() == i,
                forall|k: int| 0 <= k < i ==> (#[trigger] out@[k])@ == self.installs()[k].0@,
            decreases n - i,
        {
            out.push(self.ambient[i].0.clone());
            i = i + 1;
        }
        proof {
            assert(text::texts(out@) =~= self.installs().map_values(|e: (String, A)| e.0@));
        }
        out
    }

    /// What is installed into every state, in the order it was declared.
    pub fn installers(&self) -> (r: &Vec<(String, A)>)
        ensures
            r@ == self.installs(),
    {
        &self.ambient
    }

    /// The provider of a capability, if the host offers it.
    pub fn provider(&self, name: &str) -> (r: Option<&P>)
        ensures
            match r {
                Some(provider) => self.provides(name@) == Some(*provider),
                None => self.provides(name@) is None,
            },
    {
        proof {
            use_type_invariant(self);
        }
        self.providers.get(name)
    }
}

/// The request of a manifest's capability at a place.
pub open spec fn request_at(manifest: Manifest, signer: SignerModel, i: int) -> Request {
    let entry = manifest.capabilities@[i];
    Request {
        plugin: manifest.name@,
        signer,
        name: entry.0@,
        params: values(requested(declared(entry.1))),
        optional: says_optional(declared(entry.1)),
    }
}

/// The views of a list of requests.
pub open spec fn request_views(list: Seq<CapabilityRequest>) -> Seq<Request> {
    list.map_values(|r: CapabilityRequest| r@)
}

/// Everything a manifest asks for, in the order of the names.
pub open spec fn requests_of(manifest: Manifest, signer: SignerModel) -> Seq<Request> {
    Seq::new(manifest.capabilities@.len(), |i: int| request_at(manifest, signer, i))
}

/// Everything a manifest asks for.
pub fn requests(manifest: &Manifest, signer: &Signer) -> (r: Vec<CapabilityRequest>)
    requires
        manifest.wf(),
    ensures
        request_views(r@) == requests_of(*manifest, signer@),
{
    let n: usize = manifest.capabilities.entries.len();
    let mut out: Vec<CapabilityRequest> = Vec::new();
    let mut i: usize = 0;
    while i < n
        invariant
            manifest.wf(),
            n == manifest.capabilities.entries.len(),
            i <= n,
            out@.len() == i,
            forall|k: int| 0 <= k < i ==> (#[trigger] out@[k])@ == request_at(*manifest, signer@, k),
        decreases n - i,
    {
        let entry = &manifest.capabilities.entries[i];
        proof {
            assert(manifest.capabilities@[i as int].1.wf());
        }
        let (params, optional) = split_optional(&entry.1);
        out.push(
            CapabilityRequest {
                plugin: manifest.name.clone(),
                signer: signer.clone(),
                name: entry.0.clone(),
                params: param_values(&params),
                optional,
            },
        );
        i = i + 1;
    }
    proof {
        assert(request_views(out@) =~= requests_of(*manifest, signer@));
    }
    out
}

/// What becomes of one requested capability.
#[derive(Debug, PartialEq)]
pub enum Ruling {
    /// It is bound, as granted.
    Bind(Grant),
    /// Its name is left unbound.
    Leave,
    /// The plugin fails to load.
    Fail(FailureReason),
}

/// What becomes of a request, apart from how it is stored.
pub enum Fate {
    Bind(Granted),
    Leave,
    Fail(Why),
}

impl View for Ruling {
    type V = Fate;

    open spec fn view(&self) -> Fate {
        match *self {
            Ruling::Bind(grant) => Fate::Bind(grant@),
            Ruling::Leave => Fate::Leave,
            Ruling::Fail(reason) => Fate::Fail(reason@),
        }
    }
}

/// What becomes of a request for a capability the host does not offer.
pub open spec fn unoffered(request: Request) -> Fate {
    if request.optional {
        Fate::Leave
    } else {
        Fate::Fail(Why::UnknownCapability(request.name))
    }
}

/// What becomes of a request that a policy ruled on: denial of a required capability fails
/// the plugin, denial of an optional one leaves the name unbound.
pub open spec fn ruled(request: Request, verdict: Verdict) -> Fate {
    match verdict {
        Verdict::Grant => Fate::Bind(
            Granted { plugin: request.plugin, name: request.name, params: request.params },
        ),
        Verdict::GrantWith(params) => Fate::Bind(
            Granted { plugin: request.plugin, name: request.name, params },
        ),
        Verdict::Deny(reason) => if request.optional {
            Fate::Leave
        } else {
            Fate::Fail(Why::CapabilityDenied { name: request.name, reason })
        },
    }
}

/// What becomes of a request for a capability the host does not offer.
pub fn rule_unoffered(request: &CapabilityRequest) -> (r: Ruling)
    ensures
        r@ == unoffered(request@),
{
    if request.optional {
        Ruling::Leave
    } else {
        Ruling::Fail(FailureReason::UnknownCapability(request.name.clone()))
    }
}

/// What becomes of a request that a policy ruled on.
pub fn rule_on(request: &CapabilityRequest, decision: Decision) -> (r: Ruling)
    ensures
        r@ == ruled(request@, decision@),
        decision@ matches Verdict::GrantWith(params) ==> (r matches Ruling::Bind(grant)
            && grant@.params == params && grant@.name == request@.name && grant@.plugin
            == request@.plugin),
        decision is Grant ==> (r matches Ruling::Bind(grant) && grant@.params == request@.params
            && grant@.name == request@.name && grant@.plugin == request@.plugin),
        decision is Deny ==> !(r is Bind) && (r is Fail <==> !request.optional),
{
    match decision {
        Decision::Grant => Ruling::Bind(
            Grant::new(
                request.plugin.clone(),
                request.name.clone(),
                value::copy_table(&request.params),
            ),
        ),
        Decision::GrantWith(params) => Ruling::Bind(
            Grant::new(request.plugin.clone(), request.name.clone(), params),
        ),
        Decision::Deny(reason) => if request.optional {
            Ruling::Leave
        } else {
            Ruling::Fail(FailureReason::CapabilityDenied { name: request.name.clone(), reason })
        },
    }
}

/// The decision where no policy is configured: refuse.
pub fn without_policy() -> (r: Decision)
    ensures
        r@ == Verdict::Deny("no capability policy is configured"@),
{
    Decision::Deny("no capability policy is configured".to_owned())
}

/// Decides one request: a capability the host does not offer is never put to the policy, and
/// without a policy everything is refused.
pub fn decide_request(
    request: &CapabilityRequest,
    offered: bool,
    policy: Option<&Box<dyn Policy>>,
) -> (r: Ruling)
    ensures
        !offered ==> r@ == unoffered(request@),
        offered && policy is None ==> r@ == ruled(
            request@,
            Verdict::Deny("no capability policy is configured"@),
        ),
        offered && policy is Some ==> exists|decision: Decision| #[trigger]
            (**policy->0).rules(request, decision) && r@ == ruled(request@, decision@),
{
    if !offered {
        rule_unoffered(request)
    } else {
        match policy {
            Some(policy) => {
                let decision = policy.decide(request);
                let ghost said = decision;
                let ruling = rule_on(request, decision);
                proof {
                    assert((**policy).rules(request, said));
                }
                ruling
            },
            None => rule_on(request, without_policy()),
        }
    }
}

/// Whether a request comes to this fate: what the host does not offer is never put to the
/// policy, and without a policy everything is refused.
pub open spec fn fated(
    policy: Option<&Box<dyn Policy>>,
    request: Request,
    offered: bool,
    fate: Fate,
) -> bool {
    if !offered {
        fate == unoffered(request)
    } else {
        match policy {
            None => fate == ruled(request, Verdict::Deny("no capability policy is configured"@)),
            Some(policy) => exists|verdict: Verdict| #[trigger]
                may_rule(policy, request, verdict) && fate == ruled(request, verdict),
        }
    }
}

/// What granting the first `n` requests comes to, given the fate of each and what binding each
/// grant failed with: the names that were bound, or the first failure.
pub open spec fn bound_upto(fates: Seq<Fate>, unbound: Seq<Option<Why>>, n: int) -> Result<
    Seq<Seq<char>>,
    Why,
>
    decreases n,
{
    if n <= 0 {
        Ok(Seq::empty())
    } else {
        match bound_upto(fates, unbound, n - 1) {
            Err(why) => Err(why),
            Ok(names) => match fates[n - 1] {
                Fate::Leave => Ok(names),
                Fate::Fail(why) => Err(why),
                Fate::Bind(grant) => match unbound[n - 1] {
                    Some(why) => Err(why),
                    None => Ok(names.push(grant.name)),
                },
            },
        }
    }
}

/// Whether a grant was handed to be bound, with this outcome.
pub open spec fn bound_as<F: Fn(&Grant) -> Option<FailureReason>>(
    bind: F,
    fate: Fate,
    unbound: Option<Why>,
) -> bool {
    fate matches Fate::Bind(granted) ==> exists|grant: Grant, failure: Option<FailureReason>|
        {
            &&& grant@ == granted
            &&& #[trigger] call_ensures(bind, (&grant,), failure)
            &&& unbound == crate::trust::reason_view(failure)
        }
}

/// Whether granting a list of requests comes to this. Requests are taken in their order, and
/// none after the first that fails the plugin.
pub open spec fn granting<F: Fn(&Grant) -> Option<FailureReason>>(
    policy: Option<&Box<dyn Policy>>,
    bind: F,
    list: Seq<Request>,
    offered: Seq<Seq<char>>,
    fates: Seq<Fate>,
    unbound: Seq<Option<Why>>,
) -> bool {
    &&& fates.len() == unbound.len()
    &&& fates.len() <= list.len()
    &&& forall|i: int|
        0 <= i < fates.len() ==> fated(
            policy,
            list[i],
            offered.contains(list[i].name),
            #[trigger] fates[i],
        ) && bound_as(bind, fates[i], unbound[i])
}

/// The view of the names that were granted, or of why the plugin failed.
pub open spec fn grant_view(r: Result<Vec<String>, FailureReason>) -> Result<Seq<Seq<char>>, Why> {
    match r {
        Ok(names) => Ok(text::texts(names@)),
        Err(reason) => Err(reason@),
    }
}

/// Resolves and binds one plugin's declared capabilities: the names that were bound, in their
/// order. Denial of a required capability fails the plugin; denial of an optional one leaves
/// the name unbound. Binding is the host's, and says what it failed with.
pub fn grant_capabilities<F: Fn(&Grant) -> Option<FailureReason>>(
    manifest: &Manifest,
    signer: &Signer,
    offered: &Vec<String>,
    policy: Option<&Box<dyn Policy>>,
    bind: F,
) -> (r: Result<Vec<String>, FailureReason>)
    requires
        manifest.wf(),
        forall|grant: Grant| call_requires(bind, (&grant,)),
    ensures
        exists|fates: Seq<Fate>, unbound: Seq<Option<Why>>|
            {
                &&& #[trigger] granting(
                    policy,
                    bind,
                    requests_of(*manifest, signer@),
                    text::texts(offered@),
                    fates,
                    unbound,
                )
                &&& grant_view(r) == bound_upto(fates, unbound, fates.len() as int)
                &&& r is Ok ==> fates.len() == manifest.capabilities@.len()
            },
{
    let list = requests(manifest, signer);
    let ghost views = requests_of(*manifest, signer@);
    let ghost open = text::texts(offered@);
    let n: usize = list.len();
    let mut out: Vec<String> = Vec::new();
    let ghost mut fates = Seq::<Fate>::empty();
    let ghost mut unbound = Seq::<Option<Why>>::empty();
    let mut i: usize = 0;
    proof {
        assert(text::texts(out@) =~= Seq::empty());
        assert(views.len() == request_views(list@).len());
    }
    while i < n
        invariant
            n == list.len(),
            i <= n,
            views == request_views(list@),
            views == requests_of(*manifest, signer@),
            views.len() == manifest.capabilities@.len(),
            open == text::texts(offered@),
            fates.len() == i,
            forall|grant: Grant| call_requires(bind, (&grant,)),
            granting(policy, bind, views, open, fates, unbound),
            bound_upto(fates, unbound, i as int) == Ok::<Seq<Seq<char>>, Why>(text::texts(out@)),
        decreases n - i,
    {
        let request = &list[i];
        let ghost had = text::texts(out@);
        let ghost fates_before = fates;
        let ghost unbound_before = unbound;
        proof {
            assert(views[i as int] == request@);
        }
        let listed = crate::resolve::holds_name(offered, request.name.as_str());
        let ruling = decide_request(request, listed, policy);
        let ghost fate = ruling@;
        proof {
            if listed {
                if let Some(policy) = policy {
                    let decision = choose|decision: Decision| #[trigger]
                        (**policy).rules(request, decision) && fate == ruled(
                            request@,
                            decision@,
                        );
                    assert(may_rule(policy, request@, decision@));
                }
            }
            assert(fated(policy, views[i as int], open.contains(views[i as int].name), fate));
            fates = fates.push(fate);
        }
        match ruling {
            Ruling::Leave => {
                proof {
                    unbound = unbound.push(None);
                }
            },
            Ruling::Fail(reason) => {
                proof {
                    unbound = unbound.push(None);
                    bound_prefix(fates_before, unbound_before, fates, unbound, i as int);
                    assert(granting(policy, bind, views, open, fates, unbound));
                }
                return Err(reason);
            },
            Ruling::Bind(grant) => {
                let failure = bind(&grant);
                proof {
                    let came = crate::trust::reason_view(failure);
                    unbound = unbound.push(came);
                    assert(call_ensures(bind, (&grant,), failure));
                    assert(bound_as(bind, fate, came));
                    bound_prefix(fates_before, unbound_before, fates, unbound, i as int);
                    assert(granting(policy, bind, views, open, fates, unbound));
                }
                match failure {
                    Some(reason) => {
                        return Err(reason);
                    },
                    None => {
                        out.push(grant.name().to_owned());
                        proof {
                            assert(text::texts(out@) =~= had.push(grant@.name));
                        }
                    },
                }
            },
        }
        proof {
            bound_prefix(fates_before, unbound_before, fates, unbound, i as int);
        }
        i = i + 1;
    }
    Ok(out)
}

proof fn bound_prefix(
    fates: Seq<Fate>,
    unbound: Seq<Option<Why>>,
    more_fates: Seq<Fate>,
    more_unbound: Seq<Option<Why>>,
    n: int,
)
    requires
        n <= fates.len(),
        n <= unbound.len(),
        n <= more_fates.len(),
        n <= more_unbound.len(),
        forall|i: int| 0 <= i < n ==> fates[i] == more_fates[i] && unbound[i] == more_unbound[i],
    ensures
        bound_upto(fates, unbound, n) == bound_upto(more_fates, more_unbound, n),
    decreases n,
{
    if n > 0 {
        bound_prefix(fates, unbound, more_fates, more_unbound, n - 1);
    }
}

/// Whether a decision grants.
pub open spec fn grants(verdict: Verdict) -> bool {
    !(verdict is Deny)
}

pub fn is_granted(decision: &Decision) -> (r: bool)
    ensures
        r == grants(decision@),
{
    match decision {
        Decision::Grant => true,
        Decision::GrantWith(_) => true,
        Decision::Deny(_) => false,
    }
}

/// The names of the first `n` requests that are offered and granted, given an answer for
/// each.
pub open spec fn granted_names(
    list: Seq<Request>,
    offered: Seq<Seq<char>>,
    answers: Seq<Verdict>,
    n: int,
) -> Seq<Seq<char>>
    decreases n,
{
    if n <= 0 {
        Seq::empty()
    } else if offered.contains(list[n - 1].name) && grants(answers[n - 1]) {
        granted_names(list, offered, answers, n - 1).push(list[n - 1].name)
    } else {
        granted_names(list, offered, answers, n - 1)
    }
}

/// Whether the answers are those of a policy: each offered request is put to it, and without
/// a policy everything is refused.
pub open spec fn answered(
    policy: Option<&Box<dyn Policy>>,
    list: Seq<Request>,
    offered: Seq<Seq<char>>,
    answers: Seq<Verdict>,
) -> bool {
    forall|i: int|
        0 <= i < answers.len() && offered.contains(list[i].name) ==> match policy {
            Some(policy) => may_rule(policy, list[i], #[trigger] answers[i]),
            None => answers[i] == Verdict::Deny("no capability policy is configured"@),
        }
}

/// Whether names are those that a policy grants of a list of requests.
pub open spec fn granted_by(
    policy: Option<&Box<dyn Policy>>,
    list: Seq<Request>,
    offered: Seq<Seq<char>>,
    names: Seq<Seq<char>>,
) -> bool {
    exists|answers: Seq<Verdict>|
        {
            &&& answers.len() == list.len()
            &&& #[trigger] answered(policy, list, offered, answers)
            &&& names == granted_names(list, offered, answers, answers.len() as int)
        }
}

/// Evaluates policy for a plugin's declared capabilities, without binding any: the names of
/// those that are offered and that the policy grants, in their order. Without a policy
/// nothing is granted.
pub fn evaluate_policy(
    manifest: &Manifest,
    signer: &Signer,
    offered: &Vec<String>,
    policy: Option<&Box<dyn Policy>>,
) -> (r: Vec<String>)
    requires
        manifest.wf(),
    ensures
        policy is None ==> r@.len() == 0,
        granted_by(policy, requests_of(*manifest, signer@), text::texts(offered@), text::texts(r@)),
{
    let list = requests(manifest, signer);
    let ghost views = requests_of(*manifest, signer@);
    let ghost open = text::texts(offered@);
    let n: usize = list.len();
    let mut out: Vec<String> = Vec::new();
    let ghost mut answers = Seq::<Verdict>::empty();
    let mut i: usize = 0;
    proof {
        assert(text::texts(out@) =~= granted_names(views, open, answers, 0));
    }
    while i < n
        invariant
            n == list.len(),
            i <= n,
            views == request_views(list@),
            open == text::texts(offered@),
            answers.len() == i,
            policy is None ==> out@.len() == 0,
            answered(policy, views, open, answers),
            text::texts(out@) == granted_names(views, open, answers, i as int),
        decreases n - i,
    {
        let request = &list[i];
        let ghost had = text::texts(out@);
        let ghost before = answers;
        proof {
            assert(views[i as int] == request@);
        }
        if crate::resolve::holds_name(offered, request.name.as_str()) {
            let decision = match policy {
                Some(policy) => policy.decide(request),
                None => without_policy(),
            };
            proof {
                if let Some(policy) = policy {
                    assert((**policy).rules(request, decision));
                    assert(may_rule(policy, request@, decision@));
                }
                answers = answers.push(decision@);
                granted_prefix(views, open, before, answers, i as int);
            }
            if is_granted(&decision) {
                out.push(request.name.clone());
                proof {
                    assert(text::texts(out@) =~= had.push(request.name@));
                }
            }
        } else {
            proof {
                answers = answers.push(Verdict::Grant);
                granted_prefix(views, open, before, answers, i as int);
            }
        }
        i = i + 1;
    }
    out
}

proof fn granted_prefix(
    list: Seq<Request>,
    offered: Seq<Seq<char>>,
    a: Seq<Verdict>,
    b: Seq<Verdict>,
    n: int,
)
    requires
        n <= a.len(),
        n <= b.len(),
        forall|i: int| 0 <= i < n ==> a[i] == b[i],
    ensures
        granted_names(list, offered, a, n) == granted_names(list, offered, b, n),
    decreases n,
{
    if n > 0 {
        granted_prefix(list, offered, a, b, n - 1);
    }
}

/// Nothing is bound that was not requested, offered and granted: a capability is bound only
/// where a policy granted it, under the name it was requested by.
pub proof fn bound_is_granted(request: Request, verdict: Verdict)
    ensures
        ruled(request, verdict) is Bind <==> grants(verdict),
        ruled(request, verdict) is Bind ==> ruled(request, verdict)->Bind_0.name == request.name
            && ruled(request, verdict)->Bind_0.plugin == request.plugin,
        !(unoffered(request) is Bind),
{
}

/// A plugin never fails to load for an optional capability.
pub proof fn optional_never_fails(request: Request, verdict: Verdict)
    requires
        request.optional,
    ensures
        !(ruled(request, verdict) is Fail),
        !(unoffered(request) is Fail),
{
}

} // verus!
