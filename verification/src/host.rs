//! The object a binding hands to its language: plugins of every runtime, callable by name.
//!
//! Lua plugins live in a [`Registry`]; plugins of other runtimes are loaded through
//! registered backends. A caller sees one list: the Lua plugins, then the others.

use crate::audit::{Audit, PluginAudit};
use crate::backend::{
    handled, may_build, BackendRegistry, BoxedInstance, PluginBackend, PluginInstance, Slot,
};
use crate::budget::{CallBudget, Counts};
use crate::callback::{bridged, listed_verdict, PolicyBridge};
use crate::capability::{evaluate_policy, granted_by, requests_of, CapabilityRequest, Policy};
use crate::config::HostConfig;
use crate::error::Error;
use crate::failure::{FailureReason, LoadFailure, RegistryError};
use crate::manifest::{fault, entry_fault, Manifest, PluginType};
use crate::registry;
use crate::registry::{first_of, place_in, without_first, Isolation, Registry};
use crate::reload::{follows_on, hand_over, handed_over};
use crate::resolve::{copy_list, holds_name};
use crate::signature::{copy_opt, signer_text, DirectoryDigest, Signer, SignerModel};
use crate::text;
use crate::trust::{ruled_on, Listing};
use crate::value::Value;
use vstd::prelude::*;
use vstd::string::*;

verus! {

/// One plugin that did not load.
#[derive(Clone, Debug, PartialEq, Eq)]
pub struct Failure {
    pub plugin: String,
    pub reason: String,
}

/// The plugin and the reason of a failure.
pub type FailureModel = (Seq<char>, Seq<char>);

impl View for Failure {
    type V = FailureModel;

    open spec fn view(&self) -> FailureModel {
        (self.plugin@, self.reason@)
    }
}

pub open spec fn failure_views(list: Seq<Failure>) -> Seq<FailureModel> {
    list.map_values(|f: Failure| f@)
}

/// What one load did. One plugin failing never stops the others, so this reports both halves.
#[derive(Debug, PartialEq, Eq)]
pub struct LoadReport {
    /// Names of plugins that loaded, in the order they were constructed.
    pub loaded: Vec<String>,
    /// Plugins that did not, and why.
    pub failures: Vec<Failure>,
}

/// Failures as a foreign caller is told of them.
pub open spec fn told_failures(list: Seq<LoadFailure>) -> Seq<FailureModel> {
    list.map_values(|f: LoadFailure| (f.name@, f.reason@.message()))
}

impl LoadReport {
    /// A report of nothing.
    pub fn new() -> (r: LoadReport)
        ensures
            r.loaded@.len() == 0,
            r.failures@.len() == 0,
    {
        LoadReport { loaded: Vec::new(), failures: Vec::new() }
    }

    /// True when every discovered plugin loaded.
    pub fn is_clean(&self) -> (r: bool)
        ensures
            r == (self.failures@.len() == 0),
    {
        self.failures.len() == 0
    }

    /// Takes over what a load of Lua plugins did.
    pub fn add_lua(&mut self, report: registry::LoadReport)
        ensures
            final(self).loaded@ == old(self).loaded@ + report.loaded@,
            failure_views(final(self).failures@) == failure_views(old(self).failures@)
                + told_failures(report.failures@),
    {
        let registry::LoadReport { mut loaded, failures } = report;
        let ghost had_loaded = self.loaded@;
        let ghost more_loaded = loaded@;
        self.loaded.append(&mut loaded);
        proof {
            assert(self.loaded@ =~= had_loaded + more_loaded);
        }
        self.add_failures(&failures);
    }

    /// Takes over plugins that did not load.
    pub fn add_failures(&mut self, failures: &Vec<LoadFailure>)
        ensures
            final(self).loaded@ == old(self).loaded@,
            failure_views(final(self).failures@) == failure_views(old(self).failures@)
                + told_failures(failures@),
    {
        let ghost had = failure_views(self.failures@);
        let ghost views = told_failures(failures@);
        let n: usize = failures.len();
        let mut i: usize = 0;
        proof {
            assert(had + views.subrange(0, 0) =~= had);
        }
        while i < n
            invariant
                n == failures.len(),
                i <= n,
                self.loaded@ == old(self).loaded@,
                views == told_failures(failures@),
                failure_views(self.failures@) == had + views.subrange(0, i as int),
            decreases n - i,
        {
            let ghost then = failure_views(self.failures@);
            let failure = Failure {
                plugin: failures[i].name.clone(),
                reason: failures[i].reason.to_string(),
            };
            self.failures.push(failure);
            proof {
                assert(failure_views(self.failures@) =~= then.push(failure@));
                assert(views[i as int] == failure@);
                assert(had + views.subrange(0, i + 1) =~= (had + views.subrange(0, i as int)).push(
                    views[i as int],
                ));
            }
            i = i + 1;
        }
        proof {
            assert(views.subrange(0, n as int) =~= views);
        }
    }

    /// Records that a load of Lua plugins failed as a whole: each of them failed.
    pub fn add_lua_failure(&mut self, names: &Vec<String>, error: &RegistryError)
        ensures
            final(self).loaded@ == old(self).loaded@,
            failure_views(final(self).failures@) == failure_views(old(self).failures@)
                + names@.map_values(|name: String| (name@, error.message())),
    {
        let ghost had = failure_views(self.failures@);
        let ghost views = names@.map_values(|name: String| (name@, error.message()));
        let n: usize = names.len();
        let mut i: usize = 0;
        proof {
            assert(had + views.subrange(0, 0) =~= had);
        }
        while i < n
            invariant
                n == names.len(),
                i <= n,
                self.loaded@ == old(self).loaded@,
                views == names@.map_values(|name: String| (name@, error.message())),
                failure_views(self.failures@) == had + views.subrange(0, i as int),
            decreases n - i,
        {
            let ghost then = failure_views(self.failures@);
            let failure = Failure { plugin: names[i].clone(), reason: error.to_string() };
            self.failures.push(failure);
            proof {
                assert(failure_views(self.failures@) =~= then.push(failure@));
                assert(views[i as int] == failure@);
                assert(had + views.subrange(0, i + 1) =~= (had + views.subrange(0, i as int)).push(
                    views[i as int],
                ));
            }
            i = i + 1;
        }
        proof {
            assert(views.subrange(0, n as int) =~= views);
        }
    }
}

/// A loaded plugin, as a foreign caller sees it.
#[derive(Clone, Debug, PartialEq, Eq)]
pub struct PluginInfo {
    pub name: String,
    pub version: Option<String>,
    pub granted: Vec<String>,
    pub signer: String,
    pub runtime: String,
}

/// What a loaded plugin is, apart from how it is stored.
pub struct InfoModel {
    pub name: Seq<char>,
    pub version: Option<Seq<char>>,
    pub granted: Seq<Seq<char>>,
    pub signer: Seq<char>,
    pub runtime: Seq<char>,
}

impl View for PluginInfo {
    type V = InfoModel;

    open spec fn view(&self) -> InfoModel {
        InfoModel {
            name: self.name@,
            version: text::opt(self.version),
            granted: text::texts(self.granted@),
            signer: self.signer@,
            runtime: self.runtime@,
        }
    }
}

pub open spec fn info_views(list: Seq<PluginInfo>) -> Seq<InfoModel> {
    list.map_values(|p: PluginInfo| p@)
}

/// What one plugin requests, established without executing any of its code.
#[derive(Clone, Debug, PartialEq, Eq)]
pub struct AuditEntry {
    pub plugin: String,
    pub capabilities: Vec<String>,
    pub signer: String,
}

/// One plugin's result from a dispatch.
#[derive(Debug, PartialEq)]
pub struct Outcome {
    pub plugin: String,
    /// Present when the call succeeded.
    pub value: Option<Value>,
    /// Present when it failed. One plugin failing never affects the others.
    pub error: Option<String>,
}

impl Outcome {
    /// Whether an outcome tells what a call came to.
    pub open spec fn tells(self, result: Result<Value, Error>) -> bool {
        match result {
            Ok(value) => self.value == Some(value) && self.error is None,
            Err(error) => self.value is None && text::opt(self.error) == Some(error.message()),
        }
    }
}

/// Whether an outcome tells what an instance may answer a call.
pub open spec fn heard_from(
    instance: &BoxedInstance,
    method: &str,
    args: &[Value],
    outcome: Outcome,
) -> bool {
    exists|result: Result<Value, Error>| #[trigger]
        instance.answers(method, args, result) && outcome.tells(result)
}

/// The outcome of a call.
pub fn outcome(plugin: &str, result: Result<Value, Error>) -> (r: Outcome)
    ensures
        r.plugin@ == plugin@,
        r.tells(result),
{
    match result {
        Ok(value) => Outcome { plugin: plugin.to_owned(), value: Some(value), error: None },
        Err(error) => Outcome {
            plugin: plugin.to_owned(),
            value: None,
            error: Some(error.to_string()),
        },
    }
}

/// A loaded plugin of a runtime other than Lua.
pub struct InstanceEntry {
    pub name: String,
    pub instance: BoxedInstance,
    pub runtime: String,
    pub granted: Vec<String>,
    pub signer: String,
    pub digest: Option<String>,
    pub budget: Option<u64>,
    /// Per-call instruction meter; `None` means unbounded.
    pub call_budget: Option<CallBudget>,
    /// What was charged to the meter.
    pub counts: Counts,
    pub dir: String,
}

/// How an entry is listed: what it is, but for the instance behind it and its meter.
pub struct EntryModel {
    pub name: Seq<char>,
    pub runtime: Seq<char>,
    pub granted: Seq<Seq<char>>,
    pub signer: Seq<char>,
    pub digest: Option<Seq<char>>,
    pub budget: Option<u64>,
    pub dir: Seq<char>,
}

impl InstanceEntry {
    /// How the entry is listed.
    pub open spec fn listing(self) -> EntryModel {
        EntryModel {
            name: self.name@,
            runtime: self.runtime@,
            granted: text::texts(self.granted@),
            signer: self.signer@,
            digest: text::opt(self.digest),
            budget: self.budget,
            dir: self.dir@,
        }
    }
}

pub open spec fn entry_views(list: Seq<InstanceEntry>) -> Seq<EntryModel> {
    list.map_values(|e: InstanceEntry| e.listing())
}

/// Whether an entry is another one with its allowance whole again.
pub open spec fn refilled(now: InstanceEntry, was: InstanceEntry) -> bool {
    &&& now == (InstanceEntry { counts: now.counts, ..was })
    &&& match was.call_budget {
        Some(budget) => budget.spent(now.counts) == 0,
        None => now.counts == was.counts,
    }
}

/// Whether entries are others with one allowance whole again.
pub open spec fn refreshed(was: Seq<InstanceEntry>, now: Seq<InstanceEntry>, at: int) -> bool {
    &&& now.len() == was.len()
    &&& refilled(now[at], was[at])
    &&& forall|i: int| 0 <= i < was.len() && i != at ==> #[trigger] now[i] == was[i]
}

/// The names of entries.
pub open spec fn entry_names(list: Seq<InstanceEntry>) -> Seq<Seq<char>> {
    list.map_values(|e: InstanceEntry| e.name@)
}

/// The first `n` manifests of Lua plugins, or of the others.
pub open spec fn of_type_upto(ms: Seq<Manifest>, lua: bool, n: int) -> Seq<Manifest>
    decreases n,
{
    if n <= 0 {
        Seq::empty()
    } else if (ms[n - 1].plugin_type == PluginType::Lua) == lua {
        of_type_upto(ms, lua, n - 1).push(ms[n - 1])
    } else {
        of_type_upto(ms, lua, n - 1)
    }
}

/// Separates the manifests of Lua plugins from the others, each in their order.
pub fn split_by_type(manifests: Vec<Manifest>) -> (r: (Vec<Manifest>, Vec<Manifest>))
    ensures
        r.0@ == of_type_upto(manifests@, true, manifests@.len() as int),
        r.1@ == of_type_upto(manifests@, false, manifests@.len() as int),
{
    let ghost all = manifests@;
    let n: usize = manifests.len();
    let mut rest = manifests;
    let mut lua: Vec<Manifest> = Vec::new();
    let mut others: Vec<Manifest> = Vec::new();
    let mut i: usize = 0;
    while i < n
        invariant
            n == all.len(),
            i <= n,
            rest@ == all.subrange(i as int, n as int),
            lua@ == of_type_upto(all, true, i as int),
            others@ == of_type_upto(all, false, i as int),
        decreases n - i,
    {
        proof {
            assert(rest@[0] == all[i as int]);
        }
        let manifest = rest.remove(0);
        proof {
            assert(rest@ =~= all.subrange(i + 1, n as int));
        }
        if manifest.plugin_type == PluginType::Lua {
            lua.push(manifest);
        } else {
            others.push(manifest);
        }
        i = i + 1;
    }
    (lua, others)
}

/// The name of a plugin type.
pub open spec fn type_label(ty: PluginType) -> Seq<char> {
    match ty {
        PluginType::Lua => "Lua"@,
        PluginType::Wasm => "Wasm"@,
    }
}

/// The message for a type that no backend handles.
pub open spec fn no_backend(ty: PluginType) -> Seq<char> {
    "no backend registered for plugin type '"@ + type_label(ty) + "'"@
}

fn no_backend_text(ty: PluginType) -> (r: String)
    ensures
        r@ == no_backend(ty),
{
    let mut out = "no backend registered for plugin type '".to_owned();
    match ty {
        PluginType::Lua => {
            out.append("Lua");
        },
        PluginType::Wasm => {
            out.append("Wasm");
        },
    }
    out.append("'");
    out
}

/// What keeps a plugin of another runtime from being looked at, if anything: no backend
/// handles its type, or its entry is not one.
pub open spec fn first_fault(
    backends: Seq<Slot<Box<dyn PluginBackend>>>,
    manifest: Manifest,
) -> Option<Seq<char>> {
    if !handled(backends, manifest.plugin_type, backends.len() as int) {
        Some(no_backend(manifest.plugin_type))
    } else {
        entry_fault(manifest.plugin_type, manifest.entry@)
    }
}

/// The names a registry's policy may grant a plugin.
pub open spec fn policy_grants<I, E>(
    registry: Registry<I, E>,
    manifest: Manifest,
    signer: SignerModel,
    offered: Seq<Seq<char>>,
    names: Seq<Seq<char>>,
) -> bool {
    match registry.policy {
        Some(policy) => granted_by(Some(&policy), requests_of(manifest, signer), offered, names),
        None => granted_by(None, requests_of(manifest, signer), offered, names),
    }
}

/// Whether an entry is that of a plugin a backend built.
pub open spec fn entered(
    entry: InstanceEntry,
    manifest: Manifest,
    signer: SignerModel,
    digest: Option<DirectoryDigest>,
) -> bool {
    &&& entry.name@ == manifest.name@
    &&& entry.dir@ == manifest.dir@
    &&& entry.signer@ == signer_text(signer)
    &&& text::opt(entry.digest) == crate::trust::fingerprint_of(digest)
    &&& entry.budget == match manifest.budget {
        Some(budget) => Some(budget.max_instructions),
        None => None,
    }
    &&& match entry.budget {
        Some(limit) => entry.call_budget matches Some(budget) && budget.allowed() == limit
            && budget.opened_in(entry.counts) && budget.spent(entry.counts) == 0,
        None => entry.call_budget is None,
    }
    &&& labelled(entry)
}

/// Whether an entry carries a label its instance may give.
pub open spec fn labelled(entry: InstanceEntry) -> bool {
    exists|label: &str| label@ == entry.runtime@ && #[trigger] entry.instance.labels(label)
}

/// How a state of isolation is named.
pub open spec fn isolation_name(isolation: Isolation) -> Seq<char> {
    match isolation {
        Isolation::Shared => "shared"@,
        Isolation::PerPlugin(_) => "per-plugin"@,
        Isolation::PerGroup(_) => "per-group"@,
    }
}

/// The root to use, given what the caller passed and what was configured.
pub open spec fn chosen_root(given: Option<Seq<char>>, configured: Option<Seq<char>>) -> Result<
    Seq<char>,
    Seq<char>,
> {
    match (given, configured) {
        (Some(root), _) => Ok(root),
        (None, Some(root)) => Ok(root),
        (None, None) => Err("no plugin root was given and none is configured"@),
    }
}

/// What keeps a plugin from being loaded again before it is looked at.
pub enum ReloadFault {
    Unknown(Seq<char>),
    Io(Seq<char>),
    Config(Seq<char>),
}

impl ReloadFault {
    /// Whether an error reports a fault.
    pub open spec fn is(self, error: Error) -> bool {
        match self {
            ReloadFault::Unknown(name) => error matches Error::UnknownPlugin(said) && said@ == name,
            ReloadFault::Io(message) => error matches Error::Io(said) && said@ == message,
            ReloadFault::Config(message) => error matches Error::Config(said) && said@ == message,
        }
    }
}

/// What keeps a plugin of another runtime from being loaded again, if anything: it is not
/// loaded, its manifest cannot be read, gives it another name, or has an entry that is none.
pub open spec fn reload_fault(
    loaded: Seq<Seq<char>>,
    plugin: Seq<char>,
    read: Result<Manifest, String>,
) -> Option<ReloadFault> {
    if !loaded.contains(plugin) {
        Some(ReloadFault::Unknown(plugin))
    } else {
        match read {
            Err(message) => Some(
                ReloadFault::Io(
                    "reading manifest for reload of '"@ + plugin + "': "@ + message@,
                ),
            ),
            Ok(manifest) => if manifest.name@ != plugin {
                Some(ReloadFault::Config(crate::reload::renamed_text(manifest.name@)))
            } else {
                match entry_fault(manifest.plugin_type, manifest.entry@) {
                    Some(message) => Some(ReloadFault::Config(message)),
                    None => None,
                }
            },
        }
    }
}

/// Plugins of every runtime, callable by name.
pub struct Stanchion<E> {
    pub id: u64,
    pub registry: Registry<BoxedInstance, E>,
    pub backends: BackendRegistry<Box<dyn PluginBackend>>,
    pub instances: Vec<InstanceEntry>,
    pub default_root: Option<String>,
    pub offered: Vec<String>,
}

/// What a Lua plugin is, as a foreign caller sees it.
pub open spec fn lua_info<I, E>(plugin: registry::Plugin<I, E>) -> InfoModel {
    InfoModel {
        name: plugin.manifest.name@,
        version: crate::version::opt_version(plugin.manifest.version),
        granted: text::texts(plugin.granted@),
        signer: signer_text(plugin.signer@),
        runtime: "lua"@,
    }
}

/// What a plugin of another runtime is, as a foreign caller sees it.
pub open spec fn entry_info(entry: EntryModel) -> InfoModel {
    InfoModel {
        name: entry.name,
        version: None,
        granted: entry.granted,
        signer: entry.signer,
        runtime: entry.runtime,
    }
}

/// Whether a Lua plugin was run with its allowance whole again, and gave this.
pub open spec fn ran_whole<
    E,
    W: Fn(&BoxedInstance, &str, &[Value], Counts) -> (Result<Value, Error>, Counts),
>(
    run: W,
    plugin: registry::Plugin<BoxedInstance, E>,
    method: &str,
    args: &[Value],
    before: Counts,
    r: Result<Value, Error>,
    after: Counts,
) -> bool {
    exists|handed: Counts|
        handed_over(plugin.budget, before, handed) && #[trigger] call_ensures(
            run,
            (&plugin.instance, method, args, handed),
            (r, after),
        )
}

/// Whether an outcome tells of what a Lua plugin gave that was run with its allowance whole again.
pub open spec fn told_of<
    E,
    W: Fn(&BoxedInstance, &str, &[Value], Counts) -> (Result<Value, Error>, Counts),
>(
    run: W,
    plugin: registry::Plugin<BoxedInstance, E>,
    method: &str,
    args: &[Value],
    before: Counts,
    outcome: Outcome,
    after: Counts,
) -> bool {
    exists|said: Result<Value, Error>| #[trigger]
        ran_whole(run, plugin, method, args, before, said, after) && outcome.tells(said)
}

/// Runs a Lua plugin with its allowance whole again.
fn run_whole<
    E,
    W: Fn(&BoxedInstance, &str, &[Value], Counts) -> (Result<Value, Error>, Counts),
>(
    run: &W,
    plugin: &registry::Plugin<BoxedInstance, E>,
    method: &str,
    args: &[Value],
    counts: &mut Counts,
) -> (r: Result<Value, Error>)
    requires
        forall|i: BoxedInstance, m: &str, a: &[Value], given: Counts|
            call_requires(*run, (&i, m, a, given)),
    ensures
        ran_whole(*run, *plugin, method, args, *old(counts), r, *final(counts)),
{
    let given = hand_over(&plugin.budget, counts);
    let ghost handed = given;
    let (result, back) = run(&plugin.instance, method, args, given);
    let ghost said = result;
    let ghost left = back;
    *counts = back;
    proof {
        assert(call_ensures(*run, (&plugin.instance, method, args, handed), (said, left)));
    }
    result
}

impl<E> Stanchion<E> {
    pub open spec fn wf(self) -> bool {
        self.registry.wf()
    }

    /// Whether two hosts differ in their plugins of other runtimes alone.
    pub open spec fn same_but_instances(self, other: Self) -> bool {
        &&& self.id == other.id
        &&& self.registry == other.registry
        &&& self.backends == other.backends
        &&& self.default_root == other.default_root
        &&& self.offered == other.offered
    }

    /// Whether an entry may be that of a plugin admitted so.
    pub open spec fn enters(
        self,
        manifest: Manifest,
        signer: SignerModel,
        digest: Option<DirectoryDigest>,
        entry: InstanceEntry,
    ) -> bool {
        &&& entered(entry, manifest, signer, digest)
        &&& may_build(self.backends@, manifest, Ok(entry.instance))
        &&& policy_grants(
            self.registry,
            manifest,
            signer,
            text::texts(self.offered@),
            text::texts(entry.granted@),
        )
    }

    /// Whether loading a plugin of another runtime may come to this, given on whose word it
    /// loads or why it does not.
    pub open spec fn loads_as(
        self,
        manifest: Manifest,
        admission: Result<(Signer, Option<DirectoryDigest>), FailureReason>,
        r: Result<(), Failure>,
        instances: Seq<InstanceEntry>,
    ) -> bool {
        match (admission, r) {
            (Err(_), Err(failure)) => {
                &&& failure@ == (manifest.name@, "signature verification failed"@)
                &&& instances == self.instances@
            },
            (Err(_), Ok(_)) => false,
            (Ok(_), Err(failure)) => {
                &&& instances == self.instances@
                &&& exists|error: Error|
                    may_build(self.backends@, manifest, Err(error)) && failure@ == (
                        manifest.name@,
                        #[trigger] error.message(),
                    )
            },
            (Ok((signer, digest)), Ok(_)) => {
                &&& instances.len() == self.instances@.len() + 1
                &&& instances.drop_last() == self.instances@
                &&& self.enters(manifest, signer@, digest, instances.last())
            },
        }
    }

    /// Whether loading a plugin of another runtime comes to this, given the files of its
    /// directory.
    pub open spec fn load_comes_to(
        self,
        manifest: Manifest,
        listing: Listing,
        r: Result<(), Failure>,
        after: Self,
    ) -> bool {
        &&& after.same_but_instances(self)
        &&& match first_fault(self.backends@, manifest) {
            Some(reason) => {
                &&& r matches Err(failure)
                &&& failure@ == (manifest.name@, reason)
                &&& after.instances@ == self.instances@
            },
            None => exists|admission: Result<(Signer, Option<DirectoryDigest>), FailureReason>|
                #[trigger]
                ruled_on(self.registry, manifest, listing, admission) && self.loads_as(
                    manifest,
                    admission,
                    r,
                    after.instances@,
                ),
        }
    }

    /// Whether loading a plugin of another runtime again comes to this, given how its manifest
    /// was read and the files of its directory.
    pub open spec fn reload_comes_to(
        self,
        plugin: Seq<char>,
        read: Result<Manifest, String>,
        listing: Listing,
        r: Result<(), Error>,
        after: Self,
    ) -> bool {
        &&& after.same_but_instances(self)
        &&& entry_names(after.instances@) == entry_names(self.instances@)
        &&& r is Err ==> after.instances@ == self.instances@
        &&& match reload_fault(entry_names(self.instances@), plugin, read) {
            Some(fault) => r matches Err(error) && fault.is(error),
            None => exists|admission: Result<(Signer, Option<DirectoryDigest>), FailureReason>|
                #[trigger]
                ruled_on(self.registry, read->Ok_0, listing, admission) && self.reloads_as(
                    plugin,
                    read->Ok_0,
                    admission,
                    r,
                    after.instances@,
                ),
        }
    }

    /// Whether loading a plugin again may come to this, given on whose word it loads or why it
    /// does not.
    pub open spec fn reloads_as(
        self,
        plugin: Seq<char>,
        manifest: Manifest,
        admission: Result<(Signer, Option<DirectoryDigest>), FailureReason>,
        r: Result<(), Error>,
        instances: Seq<InstanceEntry>,
    ) -> bool {
        match admission {
            Err(reason) => r matches Err(Error::Io(said)) && said@
                == "signature verification failed for reload of '"@ + plugin + "': "@
                + reason@.message(),
            Ok((signer, digest)) => if !handled(
                self.backends@,
                manifest.plugin_type,
                self.backends@.len() as int,
            ) {
                r matches Err(Error::Config(said)) && said@ == no_backend(manifest.plugin_type)
            } else {
                match r {
                    Err(failure) => exists|error: Error|
                        may_build(self.backends@, manifest, Err(error)) && (failure matches Error::Io(
                            said,
                        ) && said@ == "reload failed for '"@ + plugin + "': "@
                            + #[trigger] error.message()),
                    Ok(_) => {
                        let at = first_of(entry_names(self.instances@), plugin, 0);
                        &&& instances == self.instances@.update(at, instances[at])
                        &&& self.enters(manifest, signer@, digest, instances[at])
                    },
                }
            },
        }
    }

    /// The names of all loaded plugins: the Lua plugins, then the others.
    pub open spec fn all_names(self) -> Seq<Seq<char>> {
        self.registry.loaded() + entry_names(self.instances@)
    }

    /// Builds a host from its configuration: shared or per-plugin states, the policy that was
    /// given or else the allow-list of the configuration.
    pub fn build(
        id: u64,
        config: &HostConfig,
        policy: Option<PolicyBridge>,
        backends: BackendRegistry<Box<dyn PluginBackend>>,
        offered: Vec<String>,
    ) -> (r: Result<Stanchion<E>, Error>)
        ensures
            match crate::config::configured_libs(config.sandbox) {
                Err(unknown) => r matches Err(Error::Config(message)) && message@
                    == "unknown standard library `"@ + unknown + "`"@,
                Ok(libs) => {
                    &&& r matches Ok(host)
                    &&& host.wf()
                    &&& host.id == id
                    &&& host.registry.plugins@.len() == 0
                    &&& host.registry.constructor@ == "new"@
                    &&& host.registry.verifier is None
                    &&& host.registry.revocations is None
                    &&& host.registry.lockfile is None
                    &&& host.registry.setup_error is None
                    &&& !host.registry.shared_configured
                    &&& host.registry.next_group == 0
                    &&& host.instances@.len() == 0
                    &&& host.backends@ == backends@
                    &&& host.offered@ == offered@
                    &&& text::opt(host.default_root) == text::opt(config.plugins)
                    &&& host.registry.require_signatures == config.signatures.required
                    &&& host.registry.policy is Some
                    &&& policy is Some ==> forall|
                        request: CapabilityRequest,
                        decision: crate::capability::Decision,
                    | #[trigger]
                        (*host.registry.policy->0).rules(&request, decision) ==> bridged(
                            &policy->0.inner,
                            request@,
                            decision@,
                        )
                    &&& policy is None ==> forall|
                        request: CapabilityRequest,
                        decision: crate::capability::Decision,
                    | #[trigger]
                        (*host.registry.policy->0).rules(&request, decision) ==> decision@
                            == listed_verdict(
                            text::texts(config.capabilities.allow@)
                                + text::texts(config.capabilities.callbacks@),
                            request.name@,
                        )
                    &&& config.sandbox.shared ==> host.registry.isolation is Shared
                    &&& !config.sandbox.shared ==> (host.registry.isolation
                        matches Isolation::PerPlugin(sandbox) && sandbox@
                        == crate::config::configured(config.sandbox, libs))
                },
            },
    {
        let sandbox = match config.sandbox.to_sandbox() {
            Err(message) => {
                return Err(Error::Config(message));
            },
            Ok(sandbox) => sandbox,
        };
        let mut registry: Registry<BoxedInstance, E> = if config.sandbox.shared {
            Registry::new()
        } else {
            Registry::isolated(sandbox)
        };
        match policy {
            Some(bridge) => {
                registry.policy = Some(Box::new(bridge));
                proof {
                    assert forall|
                        request: CapabilityRequest,
                        decision: crate::capability::Decision,
                    | #[trigger]
                        (*registry.policy->0).rules(&request, decision) implies bridged(
                        &bridge.inner,
                        request@,
                        decision@,
                    ) by {
                        assert(bridge.rules(&request, decision));
                    }
                }
            },
            None => {
                let allowed = allowed_names(config);
                proof {
                    assert(text::texts(allowed@) =~= text::texts(config.capabilities.allow@)
                        + text::texts(config.capabilities.callbacks@));
                }
                let listed = PolicyBridge::listed(allowed);
                registry.policy = Some(Box::new(listed));
                proof {
                    assert forall|
                        request: CapabilityRequest,
                        decision: crate::capability::Decision,
                    | #[trigger]
                        (*registry.policy->0).rules(&request, decision) implies listed.rules(
                        &request,
                        decision,
                    ) by {
                    }
                }
            },
        }
        registry.require_signatures = config.signatures.required;
        Ok(
            Stanchion {
                id,
                registry,
                backends,
                instances: Vec::new(),
                default_root: copy_opt(&config.plugins),
                offered,
            },
        )
    }

    /// The root to use.
    pub fn root(&self, root: Option<&str>) -> (r: Result<String, Error>)
        ensures
            match chosen_root(crate::signature::opt_str(root), text::opt(self.default_root)) {
                Ok(chosen) => r matches Ok(found) && found@ == chosen,
                Err(message) => r matches Err(Error::Config(said)) && said@ == message,
            },
    {
        match root {
            Some(root) => Ok(root.to_owned()),
            None => match &self.default_root {
                Some(configured) => Ok(configured.clone()),
                None => Err(
                    Error::Config("no plugin root was given and none is configured".to_owned()),
                ),
            },
        }
    }

    /// How the states of Lua plugins relate to each other.
    pub fn isolation(&self) -> (r: &'static str)
        ensures
            r@ == isolation_name(self.registry.isolation),
    {
        match &self.registry.isolation {
            Isolation::Shared => "shared",
            Isolation::PerPlugin(_) => "per-plugin",
            Isolation::PerGroup(_) => "per-group",
        }
    }

    /// The loaded plugins.
    pub fn list(&self) -> (r: Vec<PluginInfo>)
        ensures
            info_views(r@) == self.registry.plugins@.map_values(
                |p: registry::Plugin<BoxedInstance, E>| lua_info(p),
            ) + entry_views(self.instances@).map_values(|e: EntryModel| entry_info(e)),
    {
        let n: usize = self.registry.plugins.len();
        let ghost lua = self.registry.plugins@.map_values(
            |p: registry::Plugin<BoxedInstance, E>| lua_info(p),
        );
        let ghost other = entry_views(self.instances@).map_values(|e: EntryModel| entry_info(e));
        let mut out: Vec<PluginInfo> = Vec::new();
        let mut i: usize = 0;
        while i < n
            invariant
                n == self.registry.plugins.len(),
                i <= n,
                lua == self.registry.plugins@.map_values(
                    |p: registry::Plugin<BoxedInstance, E>| lua_info(p),
                ),
                out@.len() == i,
                forall|k: int| 0 <= k < i ==> (#[trigger] out@[k])@ == lua[k],
            decreases n - i,
        {
            let plugin = &self.registry.plugins[i];
            let version = match &plugin.manifest.version {
                Some(version) => Some(version.to_string()),
                None => None,
            };
            out.push(
                PluginInfo {
                    name: plugin.manifest.name.clone(),
                    version,
                    granted: copy_list(&plugin.granted),
                    signer: plugin.signer.to_string(),
                    runtime: "lua".to_owned(),
                },
            );
            i = i + 1;
        }
        let m: usize = self.instances.len();
        let mut k: usize = 0;
        while k < m
            invariant
                m == self.instances.len(),
                k <= m,
                n == lua.len(),
                other == entry_views(self.instances@).map_values(|e: EntryModel| entry_info(e)),
                out@.len() == n + k,
                forall|j: int| 0 <= j < n ==> (#[trigger] out@[j])@ == lua[j],
                forall|j: int| n <= j < n + k ==> (#[trigger] out@[j])@ == other[j - n],
            decreases m - k,
        {
            let entry = &self.instances[k];
            out.push(
                PluginInfo {
                    name: entry.name.clone(),
                    version: None,
                    granted: copy_list(&entry.granted),
                    signer: entry.signer.clone(),
                    runtime: entry.runtime.clone(),
                },
            );
            k = k + 1;
        }
        proof {
            assert(info_views(out@) =~= lua + other);
        }
        out
    }

    /// The loaded plugins' names.
    pub fn names(&self) -> (r: Vec<String>)
        ensures
            text::texts(r@) == self.all_names(),
    {
        let mut out = self.registry.names();
        let ghost lua = self.registry.loaded();
        let n: usize = self.instances.len();
        let mut i: usize = 0;
        proof {
            assert(lua + entry_names(self.instances@).subrange(0, 0) =~= lua);
        }
        while i < n
            invariant
                n == self.instances.len(),
                i <= n,
                text::texts(out@) == lua + entry_names(self.instances@).subrange(0, i as int),
            decreases n - i,
        {
            let ghost had = text::texts(out@);
            out.push(self.instances[i].name.clone());
            proof {
                assert(text::texts(out@) =~= had.push(self.instances@[i as int].name@));
                assert(lua + entry_names(self.instances@).subrange(0, i + 1) =~= (lua
                    + entry_names(self.instances@).subrange(0, i as int)).push(
                    self.instances@[i as int].name@,
                ));
            }
            i = i + 1;
        }
        proof {
            assert(entry_names(self.instances@).subrange(0, n as int) =~= entry_names(
                self.instances@,
            ));
        }
        out
    }

    /// How many plugins are loaded.
    pub fn len(&self) -> (r: usize)
        ensures
            self.all_names().len() <= usize::MAX ==> r == self.all_names().len(),
            self.all_names().len() > usize::MAX ==> r == usize::MAX,
    {
        self.registry.len().saturating_add(self.instances.len())
    }

    /// Whether no plugins are loaded.
    pub fn is_empty(&self) -> (r: bool)
        ensures
            r == (self.all_names().len() == 0),
    {
        self.len() == 0
    }

    /// The place of a plugin of another runtime, or their number.
    fn find_instance(&self, plugin: &str) -> (r: usize)
        ensures
            r <= self.instances@.len(),
            r < self.instances@.len() ==> r == first_of(
                entry_names(self.instances@),
                plugin@,
                0,
            ) && self.instances@[r as int].name@ == plugin@,
            r == self.instances@.len() <==> !entry_names(self.instances@).contains(plugin@),
    {
        let n: usize = self.instances.len();
        let ghost all = entry_names(self.instances@);
        let mut i: usize = 0;
        while i < n
            invariant
                n == self.instances.len(),
                i <= n,
                all == entry_names(self.instances@),
                first_of(all, plugin@, 0) == first_of(all, plugin@, i as int),
                forall|j: int| 0 <= j < i ==> #[trigger] all[j] != plugin@,
            decreases n - i,
        {
            if text::same(self.instances[i].name.as_str(), plugin) {
                proof {
                    assert(all[i as int] == plugin@);
                    assert(all.contains(plugin@));
                }
                return i;
            }
            i = i + 1;
        }
        proof {
            if all.contains(plugin@) {
                let j = choose|j: int| 0 <= j < all.len() && all[j] == plugin@;
                assert(all[j] != plugin@);
            }
        }
        n
    }

    /// Calls one method on one plugin: a Lua plugin of that name, else one of another runtime. A
    /// Lua plugin is run with the counts that its allowance is kept in, whole again; the allowance
    /// of another is its own, and is made whole again before the call. What the plugin answers is
    /// its own.
    pub fn call<
        W: Fn(&BoxedInstance, &str, &[Value], Counts) -> (Result<Value, Error>, Counts),
    >(
        &mut self,
        plugin: &str,
        method: &str,
        args: &[Value],
        counts: &mut Counts,
        run: &W,
    ) -> (r: Result<Value, Error>)
        requires
            old(self).wf(),
            forall|i: BoxedInstance, m: &str, a: &[Value], given: Counts|
                call_requires(*run, (&i, m, a, given)),
        ensures
            final(self).wf(),
            final(self).same_but_instances(*old(self)),
            !old(self).all_names().contains(plugin@) ==> {
                &&& r matches Err(Error::UnknownPlugin(name))
                &&& name@ == plugin@
                &&& final(self).instances@ == old(self).instances@
                &&& *final(counts) == *old(counts)
            },
            old(self).registry.loaded().contains(plugin@) ==> {
                let at = place_in(old(self).registry.loaded(), plugin@);
                &&& ran_whole(
                    *run,
                    old(self).registry.plugins@[at],
                    method,
                    args,
                    *old(counts),
                    r,
                    *final(counts),
                )
                &&& final(self).instances@ == old(self).instances@
            },
            !old(self).registry.loaded().contains(plugin@) && entry_names(
                old(self).instances@,
            ).contains(plugin@) ==> {
                let at = first_of(entry_names(old(self).instances@), plugin@, 0);
                &&& old(self).instances@[at].instance.answers(method, args, r)
                &&& refreshed(old(self).instances@, final(self).instances@, at)
                &&& *final(counts) == *old(counts)
            },
    {
        proof {
            joined_contains(self.registry.loaded(), entry_names(self.instances@), plugin@);
        }
        match self.registry.get(plugin) {
            Some(entry) => {
                proof {
                    let all = self.registry.loaded();
                    let k = choose|k: int|
                        0 <= k < self.registry.plugins@.len() && self.registry.plugins@[k] == *entry;
                    assert(all[k] == plugin@);
                    assert(all.contains(plugin@));
                    let at = place_in(all, plugin@);
                    assert(all[at] == all[k]);
                }
                return run_whole(run, entry, method, args, counts);
            },
            None => {},
        }
        let at: usize = self.find_instance(plugin);
        if at < self.instances.len() {
            self.refresh(at);
            return self.instances[at].instance.call(method, args);
        }
        Err(Error::UnknownPlugin(plugin.to_owned()))
    }

    /// Gives a plugin of another runtime its full allowance back.
    fn refresh(&mut self, at: usize)
        requires
            at < old(self).instances@.len(),
        ensures
            final(self).same_but_instances(*old(self)),
            refreshed(old(self).instances@, final(self).instances@, at as int),
    {
        let ghost was = self.instances@;
        let entry = &mut self.instances[at];
        match entry.call_budget {
            Some(budget) => {
                budget.reset(&mut entry.counts);
            },
            None => {},
        }
    }

    /// Calls the same method on every plugin, collecting one result each, with the allowance of
    /// each whole again: a plugin that fails reports its error in place rather than ending the
    /// dispatch.
    pub fn dispatch<
        W: Fn(&BoxedInstance, &str, &[Value], Counts) -> (Result<Value, Error>, Counts),
    >(&mut self, method: &str, args: &[Value], counts: &mut Counts, run: &W) -> (r: Vec<Outcome>)
        requires
            old(self).wf(),
            forall|i: BoxedInstance, m: &str, a: &[Value], given: Counts|
                call_requires(*run, (&i, m, a, given)),
        ensures
            final(self).wf(),
            final(self).same_but_instances(*old(self)),
            final(self).instances@.len() == old(self).instances@.len(),
            forall|i: int|
                0 <= i < old(self).instances@.len() ==> refilled(
                    #[trigger] final(self).instances@[i],
                    old(self).instances@[i],
                ),
            r@.map_values(|o: Outcome| o.plugin@) == old(self).all_names(),
            exists|trail: Seq<Counts>|
                {
                    &&& #[trigger] follows_on(
                        trail,
                        old(self).registry.plugins@.len(),
                        *old(counts),
                        *final(counts),
                    )
                    &&& forall|i: int|
                        0 <= i < old(self).registry.plugins@.len() ==> told_of(
                            *run,
                            old(self).registry.plugins@[i],
                            method,
                            args,
                            trail[i],
                            #[trigger] r@[i],
                            trail[i + 1],
                        )
                },
            forall|i: int|
                0 <= i < old(self).instances@.len() ==> heard_from(
                    &old(self).instances@[i].instance,
                    method,
                    args,
                    #[trigger] r@[old(self).registry.plugins@.len() + i],
                ),
    {
        let ghost all = self.all_names();
        let ghost lua = self.registry.loaded();
        let ghost others = entry_names(self.instances@);
        let ghost was = *self;
        let n: usize = self.registry.plugins.len();
        let mut out: Vec<Outcome> = Vec::new();
        let ghost mut trail = seq![*counts];
        let mut i: usize = 0;
        while i < n
            invariant
                *self == was,
                was == *old(self),
                n == self.registry.plugins@.len(),
                lua == self.registry.loaded(),
                i <= n,
                forall|i: BoxedInstance, m: &str, a: &[Value], given: Counts|
                    call_requires(*run, (&i, m, a, given)),
                follows_on(trail, i as nat, *old(counts), *counts),
                out@.len() == i,
                forall|k: int|
                    0 <= k < i ==> (#[trigger] out@[k]).plugin@ == lua[k] && told_of(
                        *run,
                        was.registry.plugins@[k],
                        method,
                        args,
                        trail[k],
                        out@[k],
                        trail[k + 1],
                    ),
            decreases n - i,
        {
            let plugin = &self.registry.plugins[i];
            let ghost before = *counts;
            let ghost had = trail;
            let result = run_whole(run, plugin, method, args, counts);
            let ghost said = result;
            let told = outcome(plugin.manifest.name.as_str(), result);
            let ghost heard = told;
            out.push(told);
            proof {
                trail = trail.push(*counts);
                assert(ran_whole(*run, was.registry.plugins@[i as int], method, args, before, said, *counts));
                assert(heard.tells(said));
                assert(told_of(
                    *run,
                    was.registry.plugins@[i as int],
                    method,
                    args,
                    trail[i as int],
                    heard,
                    trail[i + 1],
                ));
                assert forall|k: int| 0 <= k < i + 1 implies (#[trigger] out@[k]).plugin@ == lua[k]
                    && told_of(
                    *run,
                    was.registry.plugins@[k],
                    method,
                    args,
                    trail[k],
                    out@[k],
                    trail[k + 1],
                ) by {
                    if k < i {
                        assert(trail[k] == had[k] && trail[k + 1] == had[k + 1]);
                    }
                }
            }
            i = i + 1;
        }
        let m: usize = self.instances.len();
        let mut k: usize = 0;
        while k < m
            invariant
                self.same_but_instances(was),
                was == *old(self),
                m == self.instances@.len(),
                m == was.instances@.len(),
                forall|j: int|
                    0 <= j < k ==> refilled(#[trigger] self.instances@[j], was.instances@[j]),
                forall|j: int| k <= j < m ==> #[trigger] self.instances@[j] == was.instances@[j],
                others == entry_names(was.instances@),
                n == lua.len(),
                n == was.registry.plugins@.len(),
                follows_on(trail, n as nat, *old(counts), *counts),
                k <= m,
                out@.len() == n + k,
                forall|j: int|
                    0 <= j < n ==> (#[trigger] out@[j]).plugin@ == lua[j] && told_of(
                        *run,
                        was.registry.plugins@[j],
                        method,
                        args,
                        trail[j],
                        out@[j],
                        trail[j + 1],
                    ),
                forall|j: int|
                    0 <= j < k ==> (#[trigger] out@[n + j]).plugin@ == others[j] && heard_from(
                        &was.instances@[j].instance,
                        method,
                        args,
                        out@[n + j],
                    ),
            decreases m - k,
        {
            let ghost before = self.instances@;
            self.refresh(k);
            let entry = &self.instances[k];
            proof {
                assert(before[k as int] == was.instances@[k as int]);
                assert(entry.name@ == was.instances@[k as int].name@);
                assert forall|j: int| 0 <= j < k implies refilled(
                    #[trigger] self.instances@[j],
                    was.instances@[j],
                ) by {
                    assert(self.instances@[j] == before[j]);
                }
            }
            let result = entry.instance.call(method, args);
            let ghost said = result;
            let told = outcome(entry.name.as_str(), result);
            proof {
                assert(entry.instance.answers(method, args, said));
                assert(heard_from(&was.instances@[k as int].instance, method, args, told));
            }
            let ghost had = out@;
            out.push(told);
            proof {
                assert forall|j: int| 0 <= j < k + 1 implies (#[trigger] out@[n + j]).plugin@
                    == others[j] && heard_from(
                    &was.instances@[j].instance,
                    method,
                    args,
                    out@[n + j],
                ) by {
                    if j < k {
                        assert(out@[n + j] == had[n + j]);
                    }
                }
            }
            k = k + 1;
        }
        proof {
            assert forall|j: int| 0 <= j < all.len() implies out@[j].plugin@ == all[j] by {
                if j >= n {
                    assert(out@[n + (j - n)].plugin@ == others[j - n]);
                }
            }
            assert(out@.map_values(|o: Outcome| o.plugin@) =~= all);
        }
        out
    }

    /// Takes a granted capability from a live plugin, once it is unbound. Says whether the
    /// plugin held it.
    pub fn revoke(&mut self, plugin: &str, capability: &str) -> (r: Result<bool, Error>)
        requires
            old(self).wf(),
        ensures
            final(self).wf(),
            final(self).all_names() == old(self).all_names(),
            final(self).registry.same_rules(old(self).registry),
            final(self).backends == old(self).backends,
            final(self).default_root == old(self).default_root,
            final(self).offered == old(self).offered,
            final(self).id == old(self).id,
            !old(self).all_names().contains(plugin@) ==> {
                &&& r matches Err(Error::UnknownPlugin(name))
                &&& name@ == plugin@
                &&& final(self).registry.plugins@ == old(self).registry.plugins@
                &&& final(self).instances@ == old(self).instances@
            },
            old(self).registry.loaded().contains(plugin@) ==> {
                let at = place_in(old(self).registry.loaded(), plugin@);
                let held = text::texts(old(self).registry.plugins@[at].granted@);
                &&& r == Ok::<bool, Error>(held.contains(capability@))
                &&& final(self).registry.plugins@[at] == (registry::Plugin {
                    granted: final(self).registry.plugins@[at].granted,
                    ..old(self).registry.plugins@[at]
                })
                &&& text::texts(final(self).registry.plugins@[at].granted@) == without_first(
                    held,
                    capability@,
                )
                &&& forall|i: int|
                    0 <= i < old(self).registry.plugins@.len() && i != at
                        ==> #[trigger] final(self).registry.plugins@[i]
                        == old(self).registry.plugins@[i]
                &&& final(self).instances@ == old(self).instances@
            },
            !old(self).registry.loaded().contains(plugin@) && entry_names(
                old(self).instances@,
            ).contains(plugin@) ==> {
                let at = first_of(entry_names(old(self).instances@), plugin@, 0);
                let held = text::texts(old(self).instances@[at].granted@);
                &&& r == Ok::<bool, Error>(held.contains(capability@))
                &&& final(self).instances@[at] == (InstanceEntry {
                    granted: final(self).instances@[at].granted,
                    ..old(self).instances@[at]
                })
                &&& text::texts(final(self).instances@[at].granted@) == without_first(
                    held,
                    capability@,
                )
                &&& forall|i: int|
                    0 <= i < old(self).instances@.len() && i != at
                        ==> #[trigger] final(self).instances@[i] == old(self).instances@[i]
                &&& final(self).registry.plugins@ == old(self).registry.plugins@
            },
    {
        let ghost was = *self;
        proof {
            joined_contains(self.registry.loaded(), entry_names(self.instances@), plugin@);
        }
        match self.registry.revoke(plugin, capability) {
            Ok(held) => {
                return Ok(held);
            },
            Err(error) => match error {
                RegistryError::UnknownPlugin(_) => {},
                _ => {},
            },
        }
        let at: usize = self.find_instance(plugin);
        if at >= self.instances.len() {
            return Err(Error::UnknownPlugin(plugin.to_owned()));
        }
        let ghost rest = *self;
        let ghost held = text::texts(was.instances@[at as int].granted@);
        let n: usize = self.instances[at].granted.len();
        let mut i: usize = 0;
        while i < n
            invariant
                *self == rest,
                self.instances@ == was.instances@,
                at < self.instances@.len(),
                n == was.instances@[at as int].granted.len(),
                held == text::texts(was.instances@[at as int].granted@),
                i <= n,
                forall|j: int| 0 <= j < i ==> #[trigger] held[j] != capability@,
            ensures
                i < n ==> held[i as int] == capability@,
            decreases n - i,
        {
            if text::same(self.instances[at].granted[i].as_str(), capability) {
                break;
            }
            i = i + 1;
        }
        proof {
            registry::first_place(held, capability@, i as int);
        }
        if i >= n {
            proof {
                assert(!held.contains(capability@)) by {
                    if held.contains(capability@) {
                        let j = choose|j: int| 0 <= j < held.len() && held[j] == capability@;
                        assert(held[j] != capability@);
                    }
                }
                assert(self.all_names() =~= was.all_names());
            }
            return Ok(false);
        }
        proof {
            assert(held[i as int] == capability@);
            assert(held.contains(capability@));
        }
        let entry = &mut self.instances[at];
        entry.granted.remove(i);
        proof {
            assert(text::texts(self.instances@[at as int].granted@) =~= held.remove(i as int));
            assert(entry_names(self.instances@) =~= entry_names(was.instances@));
        }
        Ok(true)
    }

    /// Loads a plugin of another runtime, given the files of its directory: through the
    /// backend of its type, once its entry was checked, its provenance was established and
    /// policy was asked. What the backend answers is its own.
    pub fn load_other(&mut self, manifest: &Manifest, listing: Listing) -> (r: Result<(), Failure>)
        requires
            old(self).wf(),
            manifest.wf(),
        ensures
            final(self).wf(),
            old(self).load_comes_to(*manifest, listing, r, *final(self)),
    {
        let backend = match self.backends.get(&manifest.plugin_type) {
            Some(backend) => backend,
            None => {
                return Err(
                    Failure {
                        plugin: manifest.name.clone(),
                        reason: no_backend_text(manifest.plugin_type),
                    },
                );
            },
        };
        match manifest.validate() {
            Err(message) => {
                return Err(Failure { plugin: manifest.name.clone(), reason: message });
            },
            Ok(_) => {},
        }
        let admission = self.registry.verify_plugin(manifest, listing);
        let ghost ruling = admission;
        proof {
            assert(ruled_on(self.registry, *manifest, listing, ruling));
        }
        let (signer, digest) = match admission {
            Ok(pair) => pair,
            Err(_) => {
                return Err(
                    Failure {
                        plugin: manifest.name.clone(),
                        reason: "signature verification failed".to_owned(),
                    },
                );
            },
        };
        let policy: Option<&Box<dyn Policy>> = match &self.registry.policy {
            Some(policy) => Some(policy),
            None => None,
        };
        let granted = evaluate_policy(manifest, &signer, &self.offered, policy);
        let dir = manifest.dir.as_str();
        let built = backend.load(manifest, dir);
        proof {
            let list = self.backends@;
            let at = choose|at: int|
                0 <= at < list.len() && (#[trigger] list[at]).kind == manifest.plugin_type
                    && list[at].backend == *backend;
            assert(list[at].backend.builds(manifest, dir, built));
            assert(may_build(list, *manifest, built));
        }
        match built {
            Err(error) => Err(Failure { plugin: manifest.name.clone(), reason: error.to_string() }),
            Ok(instance) => {
                let (budget, call_budget, counts) = allowance(manifest);
                let label = instance.runtime();
                let runtime = label.to_owned();
                proof {
                    assert(instance.labels(label));
                }
                let entry = InstanceEntry {
                    name: manifest.name.clone(),
                    instance,
                    runtime,
                    granted,
                    signer: signer.to_string(),
                    digest: fingerprint(&digest),
                    budget,
                    call_budget,
                    counts,
                    dir: manifest.dir.clone(),
                };
                let ghost had = self.instances@;
                let ghost new = entry;
                proof {
                    assert(new.runtime@ == label@);
                    assert(new.instance.labels(label));
                    assert(labelled(new));
                    assert(entered(new, *manifest, signer@, digest));
                    assert(may_build(self.backends@, *manifest, Ok(new.instance)));
                }
                self.instances.push(entry);
                proof {
                    assert(self.instances@.drop_last() =~= had);
                    assert(old(self).enters(*manifest, signer@, digest, new));
                }
                Ok(())
            },
        }
    }

    /// Where a plugin of another runtime was loaded from.
    pub fn instance_dir(&self, plugin: &str) -> (r: Result<String, Error>)
        ensures
            entry_names(self.instances@).contains(plugin@) ==> (r matches Ok(dir) && dir@
                == self.instances@[first_of(entry_names(self.instances@), plugin@, 0)].dir@),
            !entry_names(self.instances@).contains(plugin@) ==> (r matches Err(
                Error::UnknownPlugin(name),
            ) && name@ == plugin@),
    {
        let at: usize = self.find_instance(plugin);
        if at < self.instances.len() {
            Ok(self.instances[at].dir.clone())
        } else {
            Err(Error::UnknownPlugin(plugin.to_owned()))
        }
    }

    /// Loads a plugin of another runtime again, given how its manifest was read and the files
    /// of its directory. A plugin that fails to reload leaves the old instance in place.
    pub fn reload_other(&mut self, plugin: &str, read: Result<Manifest, String>, listing: Listing) -> (r:
        Result<(), Error>)
        requires
            old(self).wf(),
            read matches Ok(manifest) ==> manifest.wf(),
        ensures
            final(self).wf(),
            old(self).reload_comes_to(plugin@, read, listing, r, *final(self)),
    {
        let at: usize = self.find_instance(plugin);
        if at >= self.instances.len() {
            return Err(Error::UnknownPlugin(plugin.to_owned()));
        }
        let manifest = match read {
            Err(message) => {
                let mut out = "reading manifest for reload of '".to_owned();
                out.append(plugin);
                out.append("': ");
                out.append(message.as_str());
                return Err(Error::Io(out));
            },
            Ok(manifest) => manifest,
        };
        if !text::same(manifest.name.as_str(), plugin) {
            let mut out = "manifest renamed the plugin to `".to_owned();
            out.append(manifest.name.as_str());
            out.append("`; remove and load it again instead");
            return Err(Error::Config(out));
        }
        match manifest.validate() {
            Err(message) => {
                return Err(Error::Config(message));
            },
            Ok(_) => {},
        }
        let admission = self.registry.verify_plugin(&manifest, listing);
        let ghost ruling = admission;
        proof {
            assert(ruled_on(self.registry, manifest, listing, ruling));
        }
        let (signer, digest) = match admission {
            Ok(pair) => pair,
            Err(reason) => {
                let mut out = "signature verification failed for reload of '".to_owned();
                out.append(plugin);
                out.append("': ");
                out.append(reason.to_string().as_str());
                return Err(Error::Io(out));
            },
        };
        let policy: Option<&Box<dyn Policy>> = match &self.registry.policy {
            Some(policy) => Some(policy),
            None => None,
        };
        let granted = evaluate_policy(&manifest, &signer, &self.offered, policy);
        let backend = match self.backends.get(&manifest.plugin_type) {
            Some(backend) => backend,
            None => {
                return Err(Error::Config(no_backend_text(manifest.plugin_type)));
            },
        };
        let dir = manifest.dir.as_str();
        let built = backend.load(&manifest, dir);
        proof {
            let list = self.backends@;
            let slot = choose|slot: int|
                0 <= slot < list.len() && (#[trigger] list[slot]).kind == manifest.plugin_type
                    && list[slot].backend == *backend;
            assert(list[slot].backend.builds(&manifest, dir, built));
            assert(may_build(list, manifest, built));
        }
        let instance = match built {
            Err(error) => {
                let mut out = "reload failed for '".to_owned();
                out.append(plugin);
                out.append("': ");
                out.append(error.to_string().as_str());
                return Err(Error::Io(out));
            },
            Ok(instance) => instance,
        };
        let (budget, call_budget, counts) = allowance(&manifest);
        let label = instance.runtime();
        let runtime = label.to_owned();
        proof {
            assert(instance.labels(label));
        }
        let entry = InstanceEntry {
            name: manifest.name.clone(),
            instance,
            runtime,
            granted,
            signer: signer.to_string(),
            digest: fingerprint(&digest),
            budget,
            call_budget,
            counts,
            dir: manifest.dir.clone(),
        };
        let ghost was = self.instances@;
        let ghost new = entry;
        proof {
            assert(new.runtime@ == label@);
            assert(new.instance.labels(label));
            assert(labelled(new));
            assert(entered(new, manifest, signer@, digest));
            assert(may_build(self.backends@, manifest, Ok(new.instance)));
        }
        self.instances.set(at, entry);
        proof {
            assert(entry_names(self.instances@) =~= entry_names(was));
            assert(old(self).enters(manifest, signer@, digest, new));
            assert(self.instances@ =~= was.update(at as int, self.instances@[at as int]));
        }
        Ok(())
    }
}

/// What a foreign caller is told of one plugin of an audit.
pub open spec fn audited(entry: AuditEntry, plugin: PluginAudit) -> bool {
    &&& entry.plugin@ == plugin.name@
    &&& text::texts(entry.capabilities@) == plugin.requests@.map_values(
        |r: CapabilityRequest| r.name@,
    )
    &&& entry.signer@ == signer_text(plugin.signer@)
}

/// An audit as a foreign caller is told of it.
pub fn audit_entries(audit: &Audit) -> (r: Vec<AuditEntry>)
    ensures
        r@.len() == audit.plugins@.len(),
        forall|i: int| 0 <= i < r@.len() ==> audited(#[trigger] r@[i], audit.plugins@[i]),
{
    let n: usize = audit.plugins.len();
    let mut out: Vec<AuditEntry> = Vec::new();
    let mut i: usize = 0;
    while i < n
        invariant
            i <= n,
            n == audit.plugins.len(),
            out@.len() == i,
            forall|k: int| 0 <= k < i ==> audited(#[trigger] out@[k], audit.plugins@[k]),
        decreases n - i,
    {
        let plugin = &audit.plugins[i];
        let m: usize = plugin.requests.len();
        let mut capabilities: Vec<String> = Vec::new();
        let mut j: usize = 0;
        while j < m
            invariant
                j <= m,
                m == plugin.requests.len(),
                capabilities@.len() == j,
                forall|k: int|
                    0 <= k < j ==> (#[trigger] capabilities@[k])@ == plugin.requests@[k].name@,
            decreases m - j,
        {
            capabilities.push(plugin.requests[j].name.clone());
            j = j + 1;
        }
        proof {
            assert(text::texts(capabilities@) =~= plugin.requests@.map_values(
                |r: CapabilityRequest| r.name@,
            ));
        }
        out.push(
            AuditEntry {
                plugin: plugin.name.clone(),
                capabilities,
                signer: plugin.signer.to_string(),
            },
        );
        i = i + 1;
    }
    out
}

/// The allowance of a plugin, and a meter for it with its counts.
fn allowance(manifest: &Manifest) -> (r: (Option<u64>, Option<CallBudget>, Counts))
    ensures
        r.0 == match manifest.budget {
            Some(budget) => Some(budget.max_instructions),
            None => None,
        },
        match r.0 {
            Some(limit) => r.1 matches Some(budget) && budget.allowed() == limit
                && budget.opened_in(r.2) && budget.spent(r.2) == 0,
            None => r.1 is None,
        },
{
    let mut counts = Counts::new();
    match &manifest.budget {
        Some(budget) => {
            let limit: u64 = budget.max_instructions;
            let meter = CallBudget::new(&mut counts, limit);
            (Some(limit), Some(meter), counts)
        },
        None => (None, None, counts),
    }
}

/// The fingerprint of a digest, where there is one.
fn fingerprint(digest: &Option<DirectoryDigest>) -> (r: Option<String>)
    ensures
        text::opt(r) == crate::trust::fingerprint_of(*digest),
{
    match digest {
        Some(digest) => Some(digest.hex()),
        None => None,
    }
}

/// The names an allow-list is made of, where no policy is given: those that the configuration
/// grants, then those that it answers itself.
pub fn allowed_names(config: &HostConfig) -> (r: Vec<String>)
    ensures
        r@ == config.capabilities.allow@ + config.capabilities.callbacks@,
{
    let mut out = copy_list(&config.capabilities.allow);
    let mut more = copy_list(&config.capabilities.callbacks);
    out.append(&mut more);
    proof {
        assert(out@ =~= config.capabilities.allow@ + config.capabilities.callbacks@);
    }
    out
}

/// Notes that a capability is answered by the host itself, which also grants it. One that is
/// noted already is not noted twice.
pub fn answer_capability(config: &mut HostConfig, name: &str)
    ensures
        final(config).plugins == old(config).plugins,
        final(config).sandbox == old(config).sandbox,
        final(config).signatures == old(config).signatures,
        final(config).capabilities.allow == old(config).capabilities.allow,
        text::texts(final(config).capabilities.callbacks@) == with_name(
            text::texts(old(config).capabilities.callbacks@),
            name@,
        ),
{
    let ghost had = text::texts(config.capabilities.callbacks@);
    if !holds_name(&config.capabilities.callbacks, name) {
        config.capabilities.callbacks.push(name.to_owned());
        proof {
            assert(text::texts(config.capabilities.callbacks@) =~= had.push(name@));
        }
    }
}

/// A list of names with one more, unless it is there.
pub open spec fn with_name(list: Seq<Seq<char>>, name: Seq<char>) -> Seq<Seq<char>> {
    if list.contains(name) {
        list
    } else {
        list.push(name)
    }
}

proof fn joined_contains(a: Seq<Seq<char>>, b: Seq<Seq<char>>, name: Seq<char>)
    ensures
        (a + b).contains(name) <==> a.contains(name) || b.contains(name),
{
    let all = a + b;
    if a.contains(name) {
        let i = choose|i: int| 0 <= i < a.len() && a[i] == name;
        assert(all[i] == name);
    }
    if b.contains(name) {
        let i = choose|i: int| 0 <= i < b.len() && b[i] == name;
        assert(all[a.len() + i] == name);
    }
    if all.contains(name) {
        let i = choose|i: int| 0 <= i < all.len() && all[i] == name;
        if i < a.len() {
            assert(a[i] == name);
        } else {
            assert(b[i - a.len()] == name);
        }
    }
}

/// Every plugin of a root is either a Lua plugin or one of another runtime.
pub proof fn split_keeps_every_plugin(ms: Seq<Manifest>, n: int)
    requires
        0 <= n <= ms.len(),
    ensures
        of_type_upto(ms, true, n).len() + of_type_upto(ms, false, n).len() == n,
        forall|i: int|
            0 <= i < of_type_upto(ms, true, n).len() ==> (#[trigger] of_type_upto(
                ms,
                true,
                n,
            )[i]).plugin_type == PluginType::Lua,
        forall|i: int|
            0 <= i < of_type_upto(ms, false, n).len() ==> (#[trigger] of_type_upto(
                ms,
                false,
                n,
            )[i]).plugin_type != PluginType::Lua,
    decreases n,
{
    if n > 0 {
        split_keeps_every_plugin(ms, n - 1);
    }
}

} // verus!
