//! Plugins of one class: what is loaded, in which order, under which name, and on whose
//! word.
//!
//! A plugin's place is looked up by name. The registry decides what may load; evaluating a
//! chunk, building a state and reading a directory are its caller's.

use crate::budget::Budget;
use crate::capability::Policy;
use crate::failure::{LoadFailure, RegistryError};
use crate::lock::Lockfile;
use crate::manifest::Manifest;
use crate::names::NameMap;
use crate::sandbox::Sandbox;
use crate::signature::{DirectoryDigest, PluginVerifier, Revocations, Signer};
use crate::text;
use vstd::prelude::*;
use vstd::string::*;

verus! {

/// Constructor looked up on a plugin's class table when none is configured.
pub const DEFAULT_CONSTRUCTOR: &'static str = "new";

/// Key a plugin publishes its public surface under.
pub const EXPORTS_KEY: &'static str = "exports";

/// How plugin states relate to each other.
#[derive(Debug, PartialEq, Eq)]
pub enum Isolation {
    /// Every plugin runs in the host's state.
    Shared,
    /// Every plugin gets its own state, built under a policy. Values cannot cross states,
    /// so exports cannot be handed to dependents.
    PerPlugin(Sandbox),
    /// One state per dependency group, built under a policy.
    PerGroup(Sandbox),
}

/// Where a state for a plugin comes from.
#[derive(Debug, Clone, Copy, PartialEq, Eq, Structural)]
pub enum StateSource {
    /// It is built for the plugin, under the sandbox, and configured.
    Fresh,
    /// It is the host's own; `configure` says whether that is still to be done.
    Host { configure: bool },
}

/// Which state a plugin runs in, when the registry is the one deciding.
///
/// Two plugins reporting the same group share a state. Under the other isolation modes every
/// plugin reports group `0`.
#[derive(Debug, Clone, Copy, PartialEq, Eq, PartialOrd, Ord, Hash, Structural)]
pub struct Group(pub u64);

impl Group {
    /// The group written out.
    pub fn to_string(&self) -> (r: String)
        ensures
            r@ == text::decimal(self.0 as nat),
    {
        text::number(self.0)
    }
}

/// A loaded plugin: its manifest, what it was granted, on whose word it was loaded, and its
/// constructed instance and published surface.
#[derive(Debug)]
pub struct Plugin<I, E> {
    pub manifest: Manifest,
    pub granted: Vec<String>,
    pub group: Group,
    pub signer: Signer,
    pub digest: Option<DirectoryDigest>,
    pub instance: I,
    pub exports: Option<E>,
    /// The allowance of its state; `None` means unbounded.
    pub budget: Option<Budget>,
}

impl<I, E> Plugin<I, E> {
    /// The allowance that applies to each call, if one is configured.
    pub fn budget(&self) -> (r: Option<&Budget>)
        ensures
            match r {
                Some(budget) => self.budget == Some(*budget),
                None => self.budget is None,
            },
    {
        match &self.budget {
            Some(budget) => Some(budget),
            None => None,
        }
    }

    /// The plugin's manifest, including its `[config]` table and directory.
    pub fn manifest(&self) -> (r: &Manifest)
        ensures
            *r == self.manifest,
    {
        &self.manifest
    }

    /// The plugin's name, as declared in its manifest.
    pub fn name(&self) -> (r: &str)
        ensures
            r@ == self.manifest.name@,
    {
        self.manifest.name.as_str()
    }

    /// The constructed instance.
    pub fn instance(&self) -> (r: &I)
        ensures
            *r == self.instance,
    {
        &self.instance
    }

    /// Which state this plugin runs in.
    pub fn group(&self) -> (r: Group)
        ensures
            r == self.group,
    {
        self.group
    }

    /// Who signed this plugin.
    pub fn signer(&self) -> (r: &Signer)
        ensures
            *r == self.signer,
    {
        &self.signer
    }

    /// The digest of the bytes this plugin was loaded from, when one was computed.
    pub fn digest(&self) -> (r: Option<&DirectoryDigest>)
        ensures
            match r {
                Some(digest) => self.digest == Some(*digest),
                None => self.digest is None,
            },
    {
        match &self.digest {
            Some(digest) => Some(digest),
            None => None,
        }
    }

    /// Capabilities this plugin was actually granted, after policy ran.
    pub fn granted_capabilities(&self) -> (r: &Vec<String>)
        ensures
            r@ == self.granted@,
    {
        &self.granted
    }

    /// The handle dependents receive, or `None` if this plugin publishes nothing.
    pub fn exports(&self) -> (r: Option<&E>)
        ensures
            match r {
                Some(exports) => self.exports == Some(*exports),
                None => self.exports is None,
            },
    {
        match &self.exports {
            Some(exports) => Some(exports),
            None => None,
        }
    }
}

/// What one load did.
#[derive(Debug, PartialEq)]
pub struct LoadReport {
    /// Names of plugins that loaded, in the order they were constructed.
    pub loaded: Vec<String>,
    /// Plugins that did not load. Loading never stops at the first failure.
    pub failures: Vec<LoadFailure>,
}

impl LoadReport {
    /// True when every discovered plugin loaded.
    pub fn is_clean(&self) -> (r: bool)
        ensures
            r == (self.failures@.len() == 0),
    {
        self.failures.len() == 0
    }
}

/// One plugin's result from a dispatch.
#[derive(Debug)]
pub struct Outcome<T> {
    /// The plugin that produced this result.
    pub name: String,
    /// What the call returned. A failure here does not affect the other plugins.
    pub result: T,
}

/// Plugins of one class.
pub struct Registry<I, E> {
    pub plugins: Vec<Plugin<I, E>>,
    pub index: NameMap<usize>,
    pub isolation: Isolation,
    pub constructor: String,
    pub policy: Option<Box<dyn Policy>>,
    pub verifier: Option<Box<dyn PluginVerifier>>,
    pub require_signatures: bool,
    pub revocations: Option<Revocations>,
    pub lockfile: Option<Lockfile>,
    pub setup_error: Option<String>,
    pub shared_configured: bool,
    pub next_group: u64,
}

/// The names of loaded plugins, in load order.
pub open spec fn plugin_names<I, E>(list: Seq<Plugin<I, E>>) -> Seq<Seq<char>> {
    list.map_values(|p: Plugin<I, E>| p.manifest.name@)
}

/// Whether an index gives each name its place, and no other name a place.
pub open spec fn indexes<I, E>(index: NameMap<usize>, list: Seq<Plugin<I, E>>) -> bool {
    &&& index.wf()
    &&& plugin_names(list).no_duplicates()
    &&& forall|name: Seq<char>| #[trigger]
        index.has(name) <==> plugin_names(list).contains(name)
    &&& forall|i: int|
        0 <= i < list.len() ==> stands_at(index, (#[trigger] list[i]).manifest.name@, i)
}

/// Whether an index gives a name a place.
pub open spec fn stands_at(index: NameMap<usize>, name: Seq<char>, at: int) -> bool {
    index.at(name) is Some && index.at(name)->0 as int == at
}

/// The place of a name in a list.
pub open spec fn place_in(list: Seq<Seq<char>>, name: Seq<char>) -> int {
    choose|i: int| 0 <= i < list.len() && list[i] == name
}

/// Rebuilds the index of a list of plugins.
fn reindex<I, E>(list: &Vec<Plugin<I, E>>) -> (r: NameMap<usize>)
    requires
        plugin_names(list@).no_duplicates(),
    ensures
        indexes(r, list@),
{
    let n: usize = list.len();
    let mut out: NameMap<usize> = NameMap::new();
    let ghost all = plugin_names(list@);
    let mut i: usize = 0;
    while i < n
        invariant
            n == list.len(),
            i <= n,
            all == plugin_names(list@),
            all.no_duplicates(),
            out.wf(),
            forall|name: Seq<char>| #[trigger]
                out.at(name) is Some <==> exists|j: int| 0 <= j < i && #[trigger] all[j] == name,
            forall|j: int| 0 <= j < i ==> stands_at(out, #[trigger] all[j], j),
        decreases n - i,
    {
        let ghost had = out;
        out.insert(list[i].manifest.name.clone(), i);
        proof {
            let name = all[i as int];
            assert(name == list@[i as int].manifest.name@);
            assert forall|other: Seq<char>| #[trigger] out.at(other) is Some <==> exists|j: int|
                0 <= j < i + 1 && #[trigger] all[j] == other by {
                if other == name {
                    assert(all[i as int] == other);
                } else if out.at(other) is Some {
                    assert(had.at(other) is Some);
                    let j = choose|j: int| 0 <= j < i && #[trigger] all[j] == other;
                    assert(all[j] == other);
                } else if exists|j: int| 0 <= j < i + 1 && #[trigger] all[j] == other {
                    let j = choose|j: int| 0 <= j < i + 1 && #[trigger] all[j] == other;
                    assert(j < i);
                    assert(had.at(other) is Some);
                }
            }
            assert forall|j: int| 0 <= j < i + 1 implies stands_at(out, #[trigger] all[j], j) by {
                if j < i {
                    assert(all[j] != all[i as int]);
                    assert(stands_at(had, all[j], j));
                }
            }
        }
        i = i + 1;
    }
    proof {
        assert forall|name: Seq<char>| #[trigger] out.has(name) <==> all.contains(name) by {
            assert(out.has(name) == (out.at(name) is Some));
            if all.contains(name) {
                let j = choose|j: int| 0 <= j < all.len() && all[j] == name;
                assert(all[j] == name);
            }
        }
        assert forall|j: int| 0 <= j < list@.len() implies stands_at(
            out,
            (#[trigger] list@[j]).manifest.name@,
            j,
        ) by {
            assert(all[j] == list@[j].manifest.name@);
        }
    }
    out
}

impl<I, E> Registry<I, E> {
    /// Every plugin is found under its own name, and no other name finds one.
    pub open spec fn wf(self) -> bool {
        &&& indexes(self.index, self.plugins@)
        &&& self.lockfile matches Some(lockfile) ==> lockfile.wf()
        &&& forall|i: int| 0 <= i < self.plugins@.len() ==> (#[trigger] self.plugins@[i]).manifest.wf()
    }

    /// The names of loaded plugins, in load order.
    pub open spec fn loaded(self) -> Seq<Seq<char>> {
        plugin_names(self.plugins@)
    }

    /// Whether nothing was loaded and nothing configured yet, but for the isolation.
    pub open spec fn fresh(self) -> bool {
        &&& self.plugins@.len() == 0
        &&& self.constructor@ == "new"@
        &&& self.policy is None
        &&& self.verifier is None
        &&& !self.require_signatures
        &&& self.revocations is None
        &&& self.lockfile is None
        &&& self.setup_error is None
        &&& !self.shared_configured
        &&& self.next_group == 0
    }

    /// Creates an empty registry in which every plugin shares the host's state.
    pub fn new() -> (r: Self)
        ensures
            r.wf(),
            r.fresh(),
            r.isolation is Shared,
    {
        let plugins: Vec<Plugin<I, E>> = Vec::new();
        let index = reindex(&plugins);
        Registry {
            plugins,
            index,
            isolation: Isolation::Shared,
            constructor: "new".to_owned(),
            policy: None,
            verifier: None,
            require_signatures: false,
            revocations: None,
            lockfile: None,
            setup_error: None,
            shared_configured: false,
            next_group: 0,
        }
    }

    /// An empty registry that gives every plugin its own state.
    pub fn isolated(sandbox: Sandbox) -> (r: Self)
        ensures
            r.wf(),
            r.fresh(),
            r.isolation == Isolation::PerPlugin(sandbox),
    {
        let mut registry = Registry::new();
        registry.isolation = Isolation::PerPlugin(sandbox);
        registry
    }

    /// An empty registry that gives every dependency group its own state.
    pub fn grouped(sandbox: Sandbox) -> (r: Self)
        ensures
            r.wf(),
            r.fresh(),
            r.isolation == Isolation::PerGroup(sandbox),
    {
        let mut registry = Registry::new();
        registry.isolation = Isolation::PerGroup(sandbox);
        registry
    }

    /// Notes what came of the host's setup: a failure is held and surfaced by the next fallible
    /// call.
    pub fn with_setup(self, failed: Option<String>) -> (r: Self)
        ensures
            r == match failed {
                Some(_) => Registry { setup_error: failed, ..self },
                None => self,
            },
    {
        match failed {
            Some(message) => Registry { setup_error: Some(message), ..self },
            None => self,
        }
    }

    /// Decides which requested capabilities are actually granted. Without a policy every
    /// capability is denied: offering a capability and granting it are separate decisions.
    pub fn with_policy(self, policy: Box<dyn Policy>) -> (r: Self)
        ensures
            r == (Registry { policy: Some(policy), ..self }),
    {
        Registry { policy: Some(policy), ..self }
    }

    /// Checks every plugin's signature before it loads.
    pub fn with_verifier(self, verifier: Box<dyn PluginVerifier>) -> (r: Self)
        ensures
            r == (Registry { verifier: Some(verifier), ..self }),
    {
        Registry { verifier: Some(verifier), ..self }
    }

    /// Whether an unsigned plugin is refused outright. Where it is not, it loads as unsigned, and
    /// policy can still refuse it privileges.
    pub fn require_signatures(self, required: bool) -> (r: Self)
        ensures
            r == (Registry { require_signatures: required, ..self }),
    {
        Registry { require_signatures: required, ..self }
    }

    /// Refuses builds or signers on a revocation list.
    pub fn with_revocations(self, revocations: Revocations) -> (r: Self)
        ensures
            r == (Registry { revocations: Some(revocations), ..self }),
    {
        Registry { revocations: Some(revocations), ..self }
    }

    /// Refuses any plugin whose bytes are not the ones this lockfile pins.
    pub fn with_lockfile(self, lockfile: Lockfile) -> (r: Self)
        ensures
            r == (Registry { lockfile: Some(lockfile), ..self }),
            self.wf() && lockfile.wf() ==> r.wf(),
    {
        Registry { lockfile: Some(lockfile), ..self }
    }

    /// The lockfile this registry enforces, if any.
    pub fn lockfile(&self) -> (r: Option<&Lockfile>)
        ensures
            match r {
                Some(lockfile) => self.lockfile == Some(*lockfile),
                None => self.lockfile is None,
            },
    {
        match &self.lockfile {
            Some(lockfile) => Some(lockfile),
            None => None,
        }
    }

    /// How plugin states are allocated.
    pub fn isolation(&self) -> (r: &Isolation)
        ensures
            *r == self.isolation,
    {
        &self.isolation
    }

    /// Uses a different constructor name than `new`.
    pub fn with_constructor(self, name: &str) -> (r: Self)
        ensures
            r == (Registry { constructor: r.constructor, ..self }),
            r.constructor@ == name@,
    {
        Registry { constructor: name.to_owned(), ..self }
    }

    /// Surfaces a failure of the host's setup, which ran before anything was loaded.
    pub fn check_setup(&self) -> (r: Result<(), RegistryError>)
        ensures
            match self.setup_error {
                Some(message) => r matches Err(RegistryError::Lua(source)) && source@ == message@,
                None => r is Ok,
            },
    {
        match &self.setup_error {
            Some(message) => Err(RegistryError::Lua(message.clone())),
            None => Ok(()),
        }
    }

    /// Where a plugin stands.
    fn position(&self, name: &str) -> (r: Option<usize>)
        requires
            self.wf(),
        ensures
            match r {
                Some(at) => at < self.plugins@.len() && self.plugins@[at as int].manifest.name@
                    == name@,
                None => !self.loaded().contains(name@),
            },
    {
        match self.index.get(name) {
            Some(at) => {
                proof {
                    assert(self.index.has(name@));
                    let i = place_in(self.loaded(), name@);
                    assert(self.plugins@[i].manifest.name@ == name@);
                }
                Some(*at)
            },
            None => {
                proof {
                    assert(!self.index.has(name@));
                }
                None
            },
        }
    }

    /// Looks a plugin up by name.
    pub fn get(&self, name: &str) -> (r: Option<&Plugin<I, E>>)
        requires
            self.wf(),
        ensures
            match r {
                Some(plugin) => plugin.manifest.name@ == name@ && self.plugins@.contains(*plugin),
                None => !self.loaded().contains(name@),
            },
    {
        match self.position(name) {
            Some(at) => Some(&self.plugins[at]),
            None => None,
        }
    }

    /// Every loaded plugin, in load order.
    pub fn plugins(&self) -> (r: &Vec<Plugin<I, E>>)
        ensures
            r@ == self.plugins@,
    {
        &self.plugins
    }

    /// Names of every loaded plugin, in load order.
    pub fn names(&self) -> (r: Vec<String>)
        ensures
            text::texts(r@) == self.loaded(),
    {
        let n: usize = self.plugins.len();
        let mut out: Vec<String> = Vec::new();
        let mut i: usize = 0;
        while i < n
            invariant
                n == self.plugins.len(),
                i <= n,
                out@.len() == i,
                forall|k: int| 0 <= k < i ==> (#[trigger] out@[k])@ == self.loaded()[k],
            decreases n - i,
        {
            out.push(self.plugins[i].manifest.name.clone());
            i = i + 1;
        }
        proof {
            assert(text::texts(out@) =~= self.loaded());
        }
        out
    }

    /// Number of loaded plugins.
    pub fn len(&self) -> (r: usize)
        ensures
            r == self.plugins@.len(),
    {
        self.plugins.len()
    }

    /// True when no plugin has loaded.
    pub fn is_empty(&self) -> (r: bool)
        ensures
            r == (self.plugins@.len() == 0),
    {
        self.plugins.len() == 0
    }

    /// Adds a loaded plugin at the end of the load order.
    pub fn add_plugin(&mut self, plugin: Plugin<I, E>)
        requires
            old(self).wf(),
            plugin.manifest.wf(),
            !old(self).loaded().contains(plugin.manifest.name@),
        ensures
            final(self).wf(),
            final(self).plugins@ == old(self).plugins@.push(plugin),
            final(self).same_rules(*old(self)),
    {
        let at: usize = self.plugins.len();
        let ghost was = *self;
        self.index.insert(plugin.manifest.name.clone(), at);
        self.plugins.push(plugin);
        proof {
            let name = plugin.manifest.name@;
            let then = plugin_names(was.plugins@);
            let now = plugin_names(self.plugins@);
            assert(now =~= then.push(name));
            assert forall|a: int, b: int| 0 <= a < now.len() && 0 <= b < now.len() && a != b implies now[a]
                != now[b] by {
                if a < then.len() && b < then.len() {
                    assert(then[a] != then[b]);
                } else if a < then.len() {
                    assert(then.contains(then[a]));
                } else {
                    assert(then.contains(then[b]));
                }
            }
            assert forall|other: Seq<char>| #[trigger] self.index.has(other) <==> now.contains(other) by {
                assert(self.index.has(other) == (self.index.at(other) is Some));
                assert(was.index.has(other) == (was.index.at(other) is Some));
                if other == name {
                    assert(now[at as int] == other);
                } else {
                    if then.contains(other) {
                        let k = choose|k: int| 0 <= k < then.len() && then[k] == other;
                        assert(now[k] == other);
                    }
                    if now.contains(other) {
                        let k = choose|k: int| 0 <= k < now.len() && now[k] == other;
                        assert(then[k] == other);
                    }
                }
            }
            assert forall|i: int| 0 <= i < self.plugins@.len() implies stands_at(
                self.index,
                (#[trigger] self.plugins@[i]).manifest.name@,
                i,
            ) by {
                if i < at {
                    assert(self.plugins@[i] == was.plugins@[i]);
                    assert(then[i] == was.plugins@[i].manifest.name@);
                    assert(then.contains(then[i]));
                }
            }
            assert forall|i: int| 0 <= i < self.plugins@.len() implies (#[trigger] self.plugins@[i]).manifest.wf() by {
                if i < at {
                    assert(self.plugins@[i] == was.plugins@[i]);
                }
            }
        }
    }

    /// Whether two registries are configured alike.
    pub open spec fn same_rules(self, other: Self) -> bool {
        &&& self.isolation == other.isolation
        &&& self.constructor == other.constructor
        &&& self.policy == other.policy
        &&& self.verifier == other.verifier
        &&& self.require_signatures == other.require_signatures
        &&& self.revocations == other.revocations
        &&& self.lockfile == other.lockfile
        &&& self.setup_error == other.setup_error
        &&& self.shared_configured == other.shared_configured
        &&& self.next_group == other.next_group
    }

    /// Unloads one plugin, returning it so the caller decides when it is dropped. Every other
    /// plugin keeps its place in the load order.
    pub fn remove(&mut self, name: &str) -> (r: Result<Plugin<I, E>, RegistryError>)
        requires
            old(self).wf(),
        ensures
            final(self).wf(),
            final(self).same_rules(*old(self)),
            !old(self).loaded().contains(name@) ==> {
                &&& r matches Err(RegistryError::UnknownPlugin(unknown))
                &&& unknown@ == name@
                &&& final(self).plugins@ == old(self).plugins@
            },
            old(self).loaded().contains(name@) ==> {
                let at = place_in(old(self).loaded(), name@);
                &&& r matches Ok(plugin)
                &&& plugin == old(self).plugins@[at]
                &&& final(self).plugins@ == old(self).plugins@.remove(at)
            },
    {
        match self.position(name) {
            Some(at) => {
                let ghost was = *self;
                let ghost all = was.loaded();
                proof {
                    assert(all[at as int] == name@);
                    assert(all.contains(name@));
                    let p = place_in(all, name@);
                    assert(all[p] == all[at as int]);
                    assert(p == at);
                }
                let plugin = self.plugins.remove(at);
                proof {
                    let now = plugin_names(self.plugins@);
                    assert(now =~= all.remove(at as int));
                    assert forall|a: int, b: int|
                        0 <= a < now.len() && 0 <= b < now.len() && a != b implies now[a]
                        != now[b] by {
                        let pa = if a < at { a } else { a + 1 };
                        let pb = if b < at { b } else { b + 1 };
                        assert(all[pa] != all[pb]);
                    }
                    assert forall|i: int| 0 <= i < self.plugins@.len() implies (#[trigger] self.plugins@[i]).manifest.wf() by {
                        let p = if i < at { i } else { i + 1 };
                        assert(self.plugins@[i] == was.plugins@[p]);
                    }
                }
                // Removal shifts every later plugin down, so the index is rebuilt rather
                // than patched: an off-by-one here would hand a caller another plugin.
                self.index = reindex(&self.plugins);
                Ok(plugin)
            },
            None => Err(RegistryError::UnknownPlugin(name.to_owned())),
        }
    }

    /// Where a plugin that is placed alone runs.
    pub fn acquire_state(&self) -> (r: StateSource)
        ensures
            r == match self.isolation {
                Isolation::Shared => StateSource::Host { configure: !self.shared_configured },
                _ => StateSource::Fresh,
            },
    {
        match &self.isolation {
            Isolation::Shared => StateSource::Host { configure: !self.shared_configured },
            _ => StateSource::Fresh,
        }
    }

    /// Notes that the host's own state is configured, which is done once.
    pub fn mark_configured(&mut self)
        requires
            old(self).wf(),
        ensures
            final(self).wf(),
            final(self).plugins@ == old(self).plugins@,
            final(self).same_rules(Registry { shared_configured: true, ..*old(self) }),
    {
        self.shared_configured = true;
    }

    /// Hands out the next group identifier.
    pub fn fresh_group(&mut self) -> (r: Group)
        requires
            old(self).wf(),
        ensures
            final(self).wf(),
            r == Group(old(self).next_group),
            final(self).next_group as int == if old(self).next_group == u64::MAX {
                u64::MAX as int
            } else {
                old(self).next_group + 1
            },
            final(self).plugins@ == old(self).plugins@,
            final(self).same_rules(Registry { next_group: final(self).next_group, ..*old(self) }),
    {
        let group = Group(self.next_group);
        self.next_group = self.next_group.saturating_add(1);
        group
    }

    /// Whether a plugin holds a capability; an error where no such plugin is loaded.
    pub fn holds_grant(&self, plugin: &str, capability: &str) -> (r: Result<bool, RegistryError>)
        requires
            self.wf(),
        ensures
            !self.loaded().contains(plugin@) ==> (r matches Err(
                RegistryError::UnknownPlugin(unknown),
            ) && unknown@ == plugin@),
            self.loaded().contains(plugin@) ==> r == Ok::<bool, RegistryError>(
                text::texts(
                    self.plugins@[place_in(self.loaded(), plugin@)].granted@,
                ).contains(capability@),
            ),
    {
        match self.position(plugin) {
            Some(at) => {
                proof {
                    let all = self.loaded();
                    assert(all[at as int] == plugin@);
                    assert(all.contains(plugin@));
                    let p = place_in(all, plugin@);
                    assert(all[p] == all[at as int]);
                }
                Ok(crate::resolve::holds_name(&self.plugins[at].granted, capability))
            },
            None => Err(RegistryError::UnknownPlugin(plugin.to_owned())),
        }
    }

    /// Takes a granted capability from a live plugin, once it is unbound. Says whether the
    /// plugin held it: its first entry for it is taken off.
    pub fn revoke(&mut self, plugin: &str, capability: &str) -> (r: Result<bool, RegistryError>)
        requires
            old(self).wf(),
        ensures
            final(self).wf(),
            final(self).same_rules(*old(self)),
            final(self).loaded() == old(self).loaded(),
            !old(self).loaded().contains(plugin@) ==> {
                &&& r matches Err(RegistryError::UnknownPlugin(unknown))
                &&& unknown@ == plugin@
                &&& final(self).plugins@ == old(self).plugins@
            },
            old(self).loaded().contains(plugin@) ==> {
                let at = place_in(old(self).loaded(), plugin@);
                let held = text::texts(old(self).plugins@[at].granted@);
                &&& r == Ok::<bool, RegistryError>(held.contains(capability@))
                &&& forall|i: int|
                    0 <= i < old(self).plugins@.len() && i != at
                        ==> #[trigger] final(self).plugins@[i] == old(self).plugins@[i]
                &&& final(self).plugins@.len() == old(self).plugins@.len()
                &&& final(self).plugins@[at] == (Plugin {
                    granted: final(self).plugins@[at].granted,
                    ..old(self).plugins@[at]
                })
                &&& text::texts(final(self).plugins@[at].granted@) == without_first(
                    held,
                    capability@,
                )
            },
    {
        match self.position(plugin) {
            Some(at) => {
                let ghost was = *self;
                let ghost all = was.loaded();
                proof {
                    assert(all[at as int] == plugin@);
                    assert(all.contains(plugin@));
                    let p = place_in(all, plugin@);
                    assert(all[p] == all[at as int]);
                }
                let ghost held = text::texts(was.plugins@[at as int].granted@);
                let n: usize = self.plugins[at].granted.len();
                let mut i: usize = 0;
                while i < n
                    invariant
                        *self == was,
                        was == *old(self),
                        at < self.plugins@.len(),
                        n == was.plugins@[at as int].granted.len(),
                        held == text::texts(was.plugins@[at as int].granted@),
                        i <= n,
                        forall|j: int| 0 <= j < i ==> #[trigger] held[j] != capability@,
                    ensures
                        i < n ==> held[i as int] == capability@,
                    decreases n - i,
                {
                    if text::same(self.plugins[at].granted[i].as_str(), capability) {
                        break;
                    }
                    i = i + 1;
                }
                proof {
                    first_place(held, capability@, i as int);
                }
                if i >= n {
                    proof {
                        assert(!held.contains(capability@));
                    }
                    return Ok(false);
                }
                proof {
                    assert(held[i as int] == capability@);
                    assert(held.contains(capability@));
                }
                let entry = &mut self.plugins[at];
                entry.granted.remove(i);
                proof {
                    assert(self.plugins@[at as int].granted@
                        == was.plugins@[at as int].granted@.remove(i as int));
                    assert(text::texts(self.plugins@[at as int].granted@) =~= held.remove(i as int));
                    assert(self.loaded() =~= all);
                    assert forall|k: int| 0 <= k < self.plugins@.len() implies stands_at(
                        self.index,
                        (#[trigger] self.plugins@[k]).manifest.name@,
                        k,
                    ) by {
                        assert(self.plugins@[k].manifest == was.plugins@[k].manifest);
                    }
                    assert forall|k: int| 0 <= k < self.plugins@.len() implies (#[trigger] self.plugins@[k]).manifest.wf() by {
                        assert(self.plugins@[k].manifest == was.plugins@[k].manifest);
                    }
                }
                Ok(true)
            },
            None => Err(RegistryError::UnknownPlugin(plugin.to_owned())),
        }
    }
}

/// A list without the first occurrence of a name.
pub open spec fn without_first(list: Seq<Seq<char>>, name: Seq<char>) -> Seq<Seq<char>> {
    if list.contains(name) {
        list.remove(first_of(list, name, 0))
    } else {
        list
    }
}

/// Where a name first occurs at or after `from`.
pub open spec fn first_of(list: Seq<Seq<char>>, name: Seq<char>, from: int) -> int
    decreases list.len() - from,
{
    if from < 0 || from >= list.len() || list[from] == name {
        from
    } else {
        first_of(list, name, from + 1)
    }
}

pub proof fn first_place(list: Seq<Seq<char>>, name: Seq<char>, at: int)
    requires
        0 <= at <= list.len(),
        forall|j: int| 0 <= j < at ==> #[trigger] list[j] != name,
    ensures
        at < list.len() && list[at] == name ==> first_of(list, name, 0) == at,
{
    if at < list.len() && list[at] == name {
        first_place_from(list, name, 0, at);
    }
}

proof fn first_place_from(list: Seq<Seq<char>>, name: Seq<char>, from: int, at: int)
    requires
        0 <= from <= at < list.len(),
        list[at] == name,
        forall|j: int| from <= j < at ==> #[trigger] list[j] != name,
    ensures
        first_of(list, name, from) == at,
    decreases at - from,
{
    if from < at {
        assert(list[from] != name);
        first_place_from(list, name, from + 1, at);
    }
}

} // verus!
