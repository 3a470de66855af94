//! Swapping in a fresh instance of a loaded plugin, and wiring a plugin to its dependencies.

use crate::budget::{Budget, Counts};
use crate::failure::{FailureReason, Failed, LoadFailure, RegistryError, Why};
use crate::manifest::{DependencySpec, Manifest};
use crate::registry::{place_in, plugin_names, stands_at, Group, Outcome, Plugin, Registry};
use crate::signature::{DirectoryDigest, Signer};
use crate::text;
use crate::loader::{ruled_by_files, Built};
use crate::trust::Listing;
use vstd::prelude::*;
use vstd::string::*;

verus! {

/// What a reload error says: which plugin, where, and why.
pub open spec fn reload_fault(r: RegistryError) -> Option<Failed> {
    match r {
        RegistryError::Reload(failure) => Some(failure@),
        _ => None,
    }
}

/// The message for a manifest that names another plugin.
pub open spec fn renamed_text(name: Seq<char>) -> Seq<char> {
    "manifest renamed the plugin to `"@ + name + "`; remove and load it again instead"@
}

/// A failure of a reload.
pub fn reload_failed(name: &str, dir: &str, reason: FailureReason) -> (r: RegistryError)
    ensures
        reload_fault(r) == Some(Failed { name: name@, dir: dir@, reason: reason@ }),
{
    RegistryError::Reload(LoadFailure { name: name.to_owned(), dir: dir.to_owned(), reason })
}

/// What a plugin's `exports` was found to be.
#[derive(Debug, PartialEq, Eq)]
pub enum ExportsKind {
    Nil,
    Table,
    Function,
    /// Anything else, by the name of its type.
    Other(String),
}

/// How a plugin's `exports` are taken.
#[derive(Debug, PartialEq, Eq)]
pub enum TakeExports {
    /// It publishes nothing.
    Nothing,
    /// As they are.
    Table,
    /// By calling the function with the instance.
    Call,
    /// Not at all, with this message.
    Refuse(String),
}

/// How a plugin's `exports` are taken: a table, or a function returning one.
pub fn take_exports(kind: &ExportsKind) -> (r: TakeExports)
    ensures
        match *kind {
            ExportsKind::Nil => r is Nothing,
            ExportsKind::Table => r is Table,
            ExportsKind::Function => r is Call,
            ExportsKind::Other(name) => r matches TakeExports::Refuse(message) && message@
                == "`exports` must be a table or a function returning one, found "@ + name@,
        },
{
    match kind {
        ExportsKind::Nil => TakeExports::Nothing,
        ExportsKind::Table => TakeExports::Table,
        ExportsKind::Function => TakeExports::Call,
        ExportsKind::Other(name) => {
            let mut out = "`exports` must be a table or a function returning one, found ".to_owned();
            out.append(name.as_str());
            TakeExports::Refuse(out)
        },
    }
}

/// What keeps a dependency from being handed over, if anything does.
pub open spec fn wiring_fault<I, E>(
    plugins: Seq<Plugin<I, E>>,
    name: Seq<char>,
    dependency: DependencySpec,
) -> Option<Why> {
    let all = plugin_names(plugins);
    if all.contains(name) {
        if plugins[place_in(all, name)].exports is None {
            Some(Why::MissingExports(name))
        } else {
            None
        }
    } else if dependency.may_be_absent() {
        None
    } else {
        Some(Why::MissingDependency(name))
    }
}

/// What keeps the first of the dependencies from `from` on from being handed over.
pub open spec fn wiring_fault_from<I, E>(
    plugins: Seq<Plugin<I, E>>,
    dependencies: Seq<(String, DependencySpec)>,
    from: int,
) -> Option<Why>
    decreases dependencies.len() - from,
{
    if from < 0 || from >= dependencies.len() {
        None
    } else {
        match wiring_fault(plugins, dependencies[from].0@, dependencies[from].1) {
            Some(why) => Some(why),
            None => wiring_fault_from(plugins, dependencies, from + 1),
        }
    }
}

/// The names of the first `n` dependencies that are loaded.
pub open spec fn present_upto<I, E>(
    plugins: Seq<Plugin<I, E>>,
    dependencies: Seq<(String, DependencySpec)>,
    n: int,
) -> Seq<Seq<char>>
    decreases n,
{
    if n <= 0 {
        Seq::empty()
    } else {
        let done = present_upto(plugins, dependencies, n - 1);
        if plugin_names(plugins).contains(dependencies[n - 1].0@) {
            done.push(dependencies[n - 1].0@)
        } else {
            done
        }
    }
}

impl<I, E> Registry<I, E> {
    /// What is handed to a constructor for the dependencies of a manifest: the published
    /// surface of each that is loaded. An absent optional dependency leaves a gap.
    pub fn dependency_table(&self, manifest: &Manifest) -> (r: Result<
        Vec<(String, &E)>,
        FailureReason,
    >)
        requires
            self.wf(),
        ensures
            match wiring_fault_from(self.plugins@, manifest.dependencies@, 0) {
                Some(why) => r matches Err(reason) && reason@ == why,
                None => {
                    &&& r matches Ok(list)
                    &&& list@.map_values(|e: (String, &E)| e.0@) == present_upto(
                        self.plugins@,
                        manifest.dependencies@,
                        manifest.dependencies@.len() as int,
                    )
                    &&& forall|k: int|
                        0 <= k < list@.len() ==> self.plugins@[place_in(
                            self.loaded(),
                            (#[trigger] list@[k]).0@,
                        )].exports == Some(*list@[k].1)
                },
            },
    {
        let n: usize = manifest.dependencies.entries.len();
        let mut out: Vec<(String, &E)> = Vec::new();
        let mut i: usize = 0;
        proof {
            assert(out@.map_values(|e: (String, &E)| e.0@) =~= Seq::<Seq<char>>::empty());
        }
        while i < n
            invariant
                self.wf(),
                n == manifest.dependencies.entries.len(),
                i <= n,
                wiring_fault_from(self.plugins@, manifest.dependencies@, 0) == wiring_fault_from(
                    self.plugins@,
                    manifest.dependencies@,
                    i as int,
                ),
                out@.map_values(|e: (String, &E)| e.0@) == present_upto(
                    self.plugins@,
                    manifest.dependencies@,
                    i as int,
                ),
                forall|k: int|
                    0 <= k < out@.len() ==> self.plugins@[place_in(
                        self.loaded(),
                        (#[trigger] out@[k]).0@,
                    )].exports == Some(*out@[k].1),
            decreases n - i,
        {
            let entry = &manifest.dependencies.entries[i];
            let ghost had = out@.map_values(|e: (String, &E)| e.0@);
            match self.get(entry.0.as_str()) {
                Some(plugin) => {
                    proof {
                        let all = self.loaded();
                        let k = choose|k: int|
                            0 <= k < self.plugins@.len() && self.plugins@[k] == *plugin;
                        assert(all[k] == entry.0@);
                        assert(all.contains(entry.0@));
                        let p = place_in(all, entry.0@);
                        assert(all[p] == all[k]);
                        assert(p == k);
                    }
                    match &plugin.exports {
                        Some(exports) => {
                            out.push((entry.0.clone(), exports));
                            proof {
                                assert(out@.map_values(|e: (String, &E)| e.0@) =~= had.push(
                                    entry.0@,
                                ));
                            }
                        },
                        None => {
                            return Err(FailureReason::MissingExports(entry.0.clone()));
                        },
                    }
                },
                None => {
                    if !entry.1.is_optional() {
                        return Err(FailureReason::MissingDependency(entry.0.clone()));
                    }
                },
            }
            i = i + 1;
        }
        Ok(out)
    }

    /// The directory a plugin was loaded from, where its manifest is read again on a reload.
    pub fn reload_dir(&self, name: &str) -> (r: Result<String, RegistryError>)
        requires
            self.wf(),
        ensures
            !self.loaded().contains(name@) ==> (r matches Err(
                RegistryError::UnknownPlugin(unknown),
            ) && unknown@ == name@),
            self.loaded().contains(name@) ==> (r matches Ok(dir) && dir@ == self.plugins@[place_in(
                self.loaded(),
                name@,
            )].manifest.dir@),
    {
        match self.get(name) {
            Some(plugin) => {
                proof {
                    let all = self.loaded();
                    let k = choose|k: int|
                        0 <= k < self.plugins@.len() && self.plugins@[k] == *plugin;
                    assert(all[k] == name@);
                    assert(all.contains(name@));
                    let p = place_in(all, name@);
                    assert(all[p] == all[k]);
                }
                Ok(plugin.manifest.dir.clone())
            },
            None => Err(RegistryError::UnknownPlugin(name.to_owned())),
        }
    }

    /// Puts a fresh build of a loaded plugin in its place, in the same group. Every other
    /// plugin is as it was.
    pub fn replace(
        &mut self,
        manifest: Manifest,
        granted: Vec<String>,
        signer: Signer,
        digest: Option<DirectoryDigest>,
        instance: I,
        exports: Option<E>,
    ) -> (r: Result<(), RegistryError>)
        requires
            old(self).wf(),
            manifest.wf(),
        ensures
            final(self).wf(),
            final(self).same_rules(*old(self)),
            final(self).loaded() == old(self).loaded(),
            !old(self).loaded().contains(manifest.name@) ==> {
                &&& r matches Err(RegistryError::UnknownPlugin(unknown))
                &&& unknown@ == manifest.name@
                &&& final(self).plugins@ == old(self).plugins@
            },
            old(self).loaded().contains(manifest.name@) ==> {
                let at = place_in(old(self).loaded(), manifest.name@);
                &&& r is Ok
                &&& final(self).plugins@ == old(self).plugins@.update(
                    at,
                    Plugin {
                        manifest,
                        granted,
                        group: old(self).plugins@[at].group,
                        signer,
                        digest,
                        instance,
                        exports,
                        budget: old(self).plugins@[at].budget,
                    },
                )
            },
    {
        let ghost was = *self;
        let ghost all = was.loaded();
        let n: usize = self.plugins.len();
        let mut at: usize = 0;
        while at < n
            invariant
                *self == was,
                was == *old(self),
                all == was.loaded(),
                n == self.plugins@.len(),
                at <= n,
                forall|k: int| 0 <= k < at ==> #[trigger] all[k] != manifest.name@,
            ensures
                at < n ==> all[at as int] == manifest.name@,
            decreases n - at,
        {
            if self.plugins[at].manifest.name == manifest.name {
                proof {
                    assert(all[at as int] == manifest.name@);
                }
                break;
            }
            at = at + 1;
        }
        if at >= n {
            proof {
                if all.contains(manifest.name@) {
                    let k = choose|k: int| 0 <= k < all.len() && all[k] == manifest.name@;
                    assert(all[k] != manifest.name@);
                }
            }
            return Err(RegistryError::UnknownPlugin(manifest.name.clone()));
        }
        let group = self.plugins[at].group;
        let budget = self.plugins[at].budget;
        let ghost name = manifest.name@;
        proof {
            assert(all.contains(name));
            let p = place_in(all, name);
            assert(all[p] == all[at as int]);
            assert(p == at);
        }
        let plugin = Plugin { manifest, granted, group, signer, digest, instance, exports, budget };
        self.plugins.set(at, plugin);
        proof {
            assert(self.loaded() =~= all);
            assert forall|k: int| 0 <= k < self.plugins@.len() implies stands_at(
                self.index,
                (#[trigger] self.plugins@[k]).manifest.name@,
                k,
            ) by {
                assert(self.plugins@[k].manifest.name@ == was.plugins@[k].manifest.name@) by {
                    assert(self.loaded()[k] == all[k]);
                }
                assert(stands_at(was.index, was.plugins@[k].manifest.name@, k));
            }
            assert forall|k: int| 0 <= k < self.plugins@.len() implies (#[trigger] self.plugins@[k]).manifest.wf() by {
                if k != at {
                    assert(self.plugins@[k] == was.plugins@[k]);
                }
            }
        }
        Ok(())
    }

    /// Calls every plugin, collecting one result each, in load order. Each call is handed the
    /// counts with the plugin's allowance whole again, so that a limit applies per call; what one
    /// call gives has no say in whether the others are made.
    pub fn dispatch<T, F: Fn(&I, Counts) -> (T, Counts)>(&self, counts: &mut Counts, call: F) -> (r:
        Vec<Outcome<T>>)
        requires
            forall|i: int, given: Counts|
                0 <= i < self.plugins@.len() ==> #[trigger] call_requires(
                    call,
                    (&self.plugins@[i].instance, given),
                ),
        ensures
            exists|trail: Seq<Counts>|
                {
                    &&& #[trigger] follows_on(trail, self.plugins@.len(), *old(counts), *final(counts))
                    &&& r@.len() == self.plugins@.len()
                    &&& forall|i: int|
                        0 <= i < r@.len() ==> (#[trigger] r@[i]).name@ == self.loaded()[i]
                            && called_whole(
                            call,
                            self.plugins@[i],
                            trail[i],
                            r@[i].result,
                            trail[i + 1],
                        )
                },
    {
        let n: usize = self.plugins.len();
        let mut out: Vec<Outcome<T>> = Vec::new();
        let ghost mut trail = seq![*counts];
        let mut i: usize = 0;
        while i < n
            invariant
                n == self.plugins.len(),
                i <= n,
                forall|k: int, given: Counts|
                    0 <= k < self.plugins@.len() ==> #[trigger] call_requires(
                        call,
                        (&self.plugins@[k].instance, given),
                    ),
                follows_on(trail, i as nat, *old(counts), *counts),
                out@.len() == i,
                forall|k: int|
                    0 <= k < i ==> (#[trigger] out@[k]).name@ == self.loaded()[k] && called_whole(
                        call,
                        self.plugins@[k],
                        trail[k],
                        out@[k].result,
                        trail[k + 1],
                    ),
            decreases n - i,
        {
            let plugin = &self.plugins[i];
            let ghost before = *counts;
            let ghost had = trail;
            let given = hand_over(&plugin.budget, counts);
            let ghost handed = given;
            let (result, back) = call(&plugin.instance, given);
            let ghost told = result;
            let ghost left = back;
            *counts = back;
            out.push(Outcome { name: plugin.manifest.name.clone(), result });
            proof {
                trail = trail.push(left);
                assert(handed_over(plugin.budget, before, handed));
                assert(call_ensures(call, (&plugin.instance, handed), (told, left)));
                assert(called_whole(call, self.plugins@[i as int], had[i as int], told, left));
                assert forall|k: int| 0 <= k < i + 1 implies (#[trigger] out@[k]).name@
                    == self.loaded()[k] && called_whole(
                    call,
                    self.plugins@[k],
                    trail[k],
                    out@[k].result,
                    trail[k + 1],
                ) by {
                    if k < i {
                        assert(trail[k] == had[k] && trail[k + 1] == had[k + 1]);
                    }
                }
            }
            i = i + 1;
        }
        out
    }
}

/// Whether counts lead from some to others in a number of calls.
pub open spec fn follows_on(trail: Seq<Counts>, calls: nat, first: Counts, last: Counts) -> bool {
    trail.len() == calls + 1 && trail[0] == first && trail.last() == last
}

/// Whether counts are others with an allowance, where there is one, whole again: nothing is spent
/// of it, and every other is as it was.
pub open spec fn handed_over(budget: Option<Budget>, before: Counts, handed: Counts) -> bool {
    match budget {
        Some(budget) => budget.spent(handed) == 0 && handed@ == before.with(budget.charges(), 0),
        None => handed@ == before@,
    }
}

/// Whether a plugin was called with its allowance whole again, and gave this.
pub open spec fn called_whole<I, E, T, F: Fn(&I, Counts) -> (T, Counts)>(
    call: F,
    plugin: Plugin<I, E>,
    before: Counts,
    result: T,
    after: Counts,
) -> bool {
    exists|handed: Counts|
        handed_over(plugin.budget, before, handed) && #[trigger] call_ensures(
            call,
            (&plugin.instance, handed),
            (result, after),
        )
}

/// Takes the counts, with an allowance, where there is one, whole again.
pub fn hand_over(budget: &Option<Budget>, counts: &mut Counts) -> (r: Counts)
    ensures
        handed_over(*budget, *old(counts), r),
        final(counts)@.len() == 0,
{
    let mut given = counts.take();
    match budget {
        Some(budget) => {
            budget.reset(&mut given);
        },
        None => {},
    }
    given
}

/// A result with its reason apart from how it is stored.
pub open spec fn why<T>(r: Result<T, FailureReason>) -> Result<T, Why> {
    match r {
        Ok(value) => Ok(value),
        Err(reason) => Err(reason@),
    }
}

/// What an option holds, by reference.
pub open spec fn borrowed<E>(had: &Option<E>) -> Option<&E> {
    match had {
        Some(old) => Some(old),
        None => None,
    }
}

/// Whether what a plugin publishes after a reload is this, or cannot be had: a surface that
/// dependents hold is repointed, a new one is made, and one that is gone is a failure.
pub open spec fn resurfaced<X, E, P: Fn(Option<&E>, X) -> Result<E, FailureReason>>(
    publish: P,
    name: Seq<char>,
    had: Option<E>,
    has: Option<X>,
    r: Result<Option<E>, Why>,
) -> bool {
    match (had, has) {
        (_, Some(table)) => exists|made: Result<E, FailureReason>|
            {
                &&& #[trigger] call_ensures(
                    publish,
                    (borrowed(&had), table),
                    made,
                )
                &&& r == match made {
                    Ok(surface) => Ok::<Option<E>, Why>(Some(surface)),
                    Err(reason) => Err::<Option<E>, Why>(reason@),
                }
            },
        (Some(_), None) => r == Err::<Option<E>, Why>(Why::MissingExports(name)),
        (None, None) => r == Ok::<Option<E>, Why>(None),
    }
}

/// Whether a reload, its plugin having been built again, comes to this.
pub open spec fn replaced<I, E, X, P: Fn(Option<&E>, X) -> Result<E, FailureReason>>(
    publish: P,
    was: Plugin<I, E>,
    manifest: Manifest,
    signer: Signer,
    digest: Option<DirectoryDigest>,
    built: Result<Built<I, X>, FailureReason>,
    r: Result<Plugin<I, E>, Why>,
) -> bool {
    match built {
        Err(reason) => r == Err::<Plugin<I, E>, Why>(reason@),
        Ok(built) => exists|surface: Result<Option<E>, Why>|
            {
                &&& #[trigger] resurfaced(
                    publish,
                    was.manifest.name@,
                    was.exports,
                    built.exports,
                    surface,
                )
                &&& r == match surface {
                    Err(why) => Err::<Plugin<I, E>, Why>(why),
                    Ok(exports) => Ok::<Plugin<I, E>, Why>(
                        Plugin {
                            manifest,
                            granted: built.granted,
                            group: was.group,
                            signer,
                            digest,
                            instance: built.instance,
                            exports,
                            budget: was.budget,
                        },
                    ),
                }
            },
    }
}

/// Whether a reload, on whose word the plugin loads being known, comes to this.
pub open spec fn rebuilt<
    I,
    E,
    X,
    B: Fn(&Registry<I, E>, &Manifest, Group, &Signer, &Option<DirectoryDigest>) -> Result<
        Built<I, X>,
        FailureReason,
    >,
    P: Fn(Option<&E>, X) -> Result<E, FailureReason>,
>(
    build: B,
    publish: P,
    registry: Registry<I, E>,
    was: Plugin<I, E>,
    manifest: Manifest,
    admission: Result<(Signer, Option<DirectoryDigest>), FailureReason>,
    r: Result<Plugin<I, E>, Why>,
) -> bool {
    match admission {
        Err(reason) => r == Err::<Plugin<I, E>, Why>(reason@),
        Ok((signer, digest)) => exists|built: Result<Built<I, X>, FailureReason>|
            {
                &&& #[trigger] call_ensures(
                    build,
                    (&registry, &manifest, was.group, &signer, &digest),
                    built,
                )
                &&& replaced(publish, was, manifest, signer, digest, built, r)
            },
    }
}

/// Whether a reload comes to this: the plugin that takes the place of the old one, or why
/// there is none.
pub open spec fn reload_comes_to<
    I,
    E,
    X,
    R: Fn(&str) -> Result<Manifest, FailureReason>,
    L: Fn(&Manifest) -> Listing,
    B: Fn(&Registry<I, E>, &Manifest, Group, &Signer, &Option<DirectoryDigest>) -> Result<
        Built<I, X>,
        FailureReason,
    >,
    P: Fn(Option<&E>, X) -> Result<E, FailureReason>,
>(
    read: R,
    files: L,
    build: B,
    publish: P,
    registry: Registry<I, E>,
    was: Plugin<I, E>,
    r: Result<Plugin<I, E>, Why>,
) -> bool {
    exists|dir: &str, found: Result<Manifest, FailureReason>|
        {
            &&& dir@ == was.manifest.dir@
            &&& #[trigger] call_ensures(read, (dir,), found)
            &&& match found {
                Err(reason) => r == Err::<Plugin<I, E>, Why>(reason@),
                Ok(manifest) => if manifest.name@ != was.manifest.name@ {
                    r == Err::<Plugin<I, E>, Why>(Why::Manifest(renamed_text(manifest.name@)))
                } else {
                    exists|admission: Result<(Signer, Option<DirectoryDigest>), FailureReason>|
                        #[trigger]
                        ruled_by_files(registry, files, manifest, admission) && rebuilt(
                            build,
                            publish,
                            registry,
                            was,
                            manifest,
                            admission,
                            r,
                        )
                },
            }
        }
}

/// Whether reloading the plugin of a name comes to this. A plugin that fails to reload leaves
/// the old instance in place, and every other plugin is as it was.
pub open spec fn reload_outcome<
    I,
    E,
    X,
    R: Fn(&str) -> Result<Manifest, FailureReason>,
    L: Fn(&Manifest) -> Listing,
    B: Fn(&Registry<I, E>, &Manifest, Group, &Signer, &Option<DirectoryDigest>) -> Result<
        Built<I, X>,
        FailureReason,
    >,
    P: Fn(Option<&E>, X) -> Result<E, FailureReason>,
>(
    read: R,
    files: L,
    build: B,
    publish: P,
    before: Registry<I, E>,
    name: Seq<char>,
    r: Result<(), RegistryError>,
    after: Registry<I, E>,
) -> bool {
    &&& after.same_rules(before)
    &&& after.loaded() == before.loaded()
    &&& !before.loaded().contains(name) ==> {
        &&& r matches Err(RegistryError::UnknownPlugin(unknown))
        &&& unknown@ == name
        &&& after == before
    }
    &&& before.loaded().contains(name) ==> {
        let at = place_in(before.loaded(), name);
        let was = before.plugins@[at];
        exists|came: Result<Plugin<I, E>, Why>|
            {
                &&& #[trigger] reload_comes_to(read, files, build, publish, before, was, came)
                &&& match came {
                    Ok(plugin) => r is Ok && after.plugins@ == before.plugins@.update(at, plugin),
                    Err(reason) => {
                        &&& r matches Err(error)
                        &&& reload_fault(error) == Some(
                            Failed { name, dir: was.manifest.dir@, reason },
                        )
                        &&& after == before
                    },
                }
            }
    }
}

impl<I, E> Registry<I, E> {
    /// Loads one plugin again from its directory, in the state it runs in. A plugin that
    /// fails to reload leaves the old instance in place, and every other plugin is as it was.
    ///
    /// Dependents hold the surface the plugin published, and it is repointed underneath them:
    /// a reload that no longer publishes one is refused.
    #[verifier::rlimit(40)]
    pub fn reload<
        X,
        R: Fn(&str) -> Result<Manifest, FailureReason>,
        L: Fn(&Manifest) -> Listing,
        B: Fn(&Registry<I, E>, &Manifest, Group, &Signer, &Option<DirectoryDigest>) -> Result<
            Built<I, X>,
            FailureReason,
        >,
        P: Fn(Option<&E>, X) -> Result<E, FailureReason>,
    >(&mut self, name: &str, read: &R, files: &L, build: &B, publish: &P) -> (r: Result<
        (),
        RegistryError,
    >)
        requires
            old(self).wf(),
            forall|dir: &str| call_requires(*read, (dir,)),
            forall|dir: &str, found: Result<Manifest, FailureReason>| #[trigger]
                call_ensures(*read, (dir,), found) ==> (found matches Ok(m) ==> m.wf()),
            forall|m: Manifest| call_requires(*files, (&m,)),
            forall|
                g: Registry<I, E>,
                m: Manifest,
                at: Group,
                s: Signer,
                d: Option<DirectoryDigest>,
            |
                g.wf() && m.wf() ==> call_requires(*build, (&g, &m, at, &s, &d)),
            forall|had: Option<&E>, table: X| call_requires(*publish, (had, table)),
        ensures
            final(self).wf(),
            reload_outcome(
                *read,
                *files,
                *build,
                *publish,
                *old(self),
                name@,
                r,
                *final(self),
            ),
    {
        let dir = match self.reload_dir(name) {
            Err(error) => {
                return Err(error);
            },
            Ok(dir) => dir,
        };
        let ghost before = *self;
        let ghost at = place_in(self.loaded(), name@);
        let ghost was = self.plugins@[at];
        match self.rebuild(name, dir.as_str(), read, files, build, publish) {
            Err(reason) => {
                proof {
                    let came = Err::<Plugin<I, E>, Why>(reason@);
                    assert(reload_comes_to(*read, *files, *build, *publish, before, was, came));
                }
                Err(reload_failed(name, dir.as_str(), reason))
            },
            Ok(plugin) => {
                let ghost came = Ok::<Plugin<I, E>, Why>(plugin);
                proof {
                    assert(reload_comes_to(*read, *files, *build, *publish, before, was, came));
                    assert(plugin.group == before.plugins@[at].group);
                }
                self.replace(
                    plugin.manifest,
                    plugin.granted,
                    plugin.signer,
                    plugin.digest,
                    plugin.instance,
                    plugin.exports,
                )
            },
        }
    }

    /// The plugin that takes the place of a loaded one, or why there is none.
    fn rebuild<
        X,
        R: Fn(&str) -> Result<Manifest, FailureReason>,
        L: Fn(&Manifest) -> Listing,
        B: Fn(&Registry<I, E>, &Manifest, Group, &Signer, &Option<DirectoryDigest>) -> Result<
            Built<I, X>,
            FailureReason,
        >,
        P: Fn(Option<&E>, X) -> Result<E, FailureReason>,
    >(&self, name: &str, dir: &str, read: &R, files: &L, build: &B, publish: &P) -> (r: Result<
        Plugin<I, E>,
        FailureReason,
    >)
        requires
            self.wf(),
            self.loaded().contains(name@),
            dir@ == self.plugins@[place_in(self.loaded(), name@)].manifest.dir@,
            forall|dir: &str| call_requires(*read, (dir,)),
            forall|dir: &str, found: Result<Manifest, FailureReason>| #[trigger]
                call_ensures(*read, (dir,), found) ==> (found matches Ok(m) ==> m.wf()),
            forall|m: Manifest| call_requires(*files, (&m,)),
            forall|
                g: Registry<I, E>,
                m: Manifest,
                at: Group,
                s: Signer,
                d: Option<DirectoryDigest>,
            |
                g.wf() && m.wf() ==> call_requires(*build, (&g, &m, at, &s, &d)),
            forall|had: Option<&E>, table: X| call_requires(*publish, (had, table)),
        ensures
            reload_comes_to(
                *read,
                *files,
                *build,
                *publish,
                *self,
                self.plugins@[place_in(self.loaded(), name@)],
                why(r),
            ),
            r matches Ok(plugin) ==> plugin.manifest.wf() && plugin.manifest.name@ == name@
                && plugin.group == self.plugins@[place_in(self.loaded(), name@)].group,
    {
        let ghost at = place_in(self.loaded(), name@);
        let current = match self.get(name) {
            Some(current) => current,
            None => {
                return Err(FailureReason::MissingExports(name.to_owned()));
            },
        };
        let ghost was = self.plugins@[at];
        proof {
            let all = self.loaded();
            let k = choose|k: int| 0 <= k < self.plugins@.len() && self.plugins@[k] == *current;
            assert(all[k] == name@);
            assert(all[at] == all[k]);
            assert(was == *current);
        }
        let found = read(dir);
        let ghost reading = found;
        proof {
            assert(call_ensures(*read, (dir,), reading));
        }
        let manifest = match found {
            Err(reason) => {
                return Err(reason);
            },
            Ok(manifest) => manifest,
        };
        if !text::same(manifest.name.as_str(), name) {
            let mut out = "manifest renamed the plugin to `".to_owned();
            out.append(manifest.name.as_str());
            out.append("`; remove and load it again instead");
            return Err(FailureReason::Manifest(out));
        }
        let listing = files(&manifest);
        let ghost listed = listing;
        let admission = self.verify_plugin(&manifest, listing);
        let ghost ruling = admission;
        proof {
            assert(call_ensures(*files, (&manifest,), listed));
            assert(ruled_by_files(*self, *files, manifest, ruling));
        }
        let (signer, digest) = match admission {
            Err(reason) => {
                proof {
                    assert(rebuilt(
                        *build,
                        *publish,
                        *self,
                        was,
                        manifest,
                        ruling,
                        Err::<Plugin<I, E>, Why>(reason@),
                    ));
                }
                return Err(reason);
            },
            Ok(pair) => pair,
        };
        let made = build(self, &manifest, current.group, &signer, &digest);
        let ghost result = made;
        proof {
            assert(call_ensures(
                *build,
                (self, &manifest, was.group, &signer, &digest),
                result,
            ));
        }
        let built = match made {
            Err(reason) => {
                proof {
                    let came = Err::<Plugin<I, E>, Why>(reason@);
                    assert(replaced(*publish, was, manifest, signer, digest, result, came));
                    assert(rebuilt(*build, *publish, *self, was, manifest, ruling, came));
                }
                return Err(reason);
            },
            Ok(built) => built,
        };
        let had: Option<&E> = match &current.exports {
            Some(old) => Some(old),
            None => None,
        };
        let ghost has = built.exports;
        let surface: Result<Option<E>, FailureReason> = match built.exports {
            Some(table) => {
                let published = publish(had, table);
                let ghost said = published;
                proof {
                    assert(call_ensures(*publish, (had, table), said));
                }
                match published {
                    Ok(surface) => Ok(Some(surface)),
                    Err(reason) => Err(reason),
                }
            },
            None => match had {
                Some(_) => Err(FailureReason::MissingExports(name.to_owned())),
                None => Ok(None),
            },
        };
        let ghost shown = why(surface);
        proof {
            assert(resurfaced(*publish, was.manifest.name@, was.exports, has, shown));
        }
        match surface {
            Err(reason) => {
                proof {
                    let came = Err::<Plugin<I, E>, Why>(reason@);
                    assert(replaced(*publish, was, manifest, signer, digest, result, came));
                    assert(rebuilt(*build, *publish, *self, was, manifest, ruling, came));
                }
                Err(reason)
            },
            Ok(exports) => {
                let plugin = Plugin {
                    manifest,
                    granted: built.granted,
                    group: current.group,
                    signer,
                    digest,
                    instance: built.instance,
                    exports,
                    budget: current.budget,
                };
                proof {
                    let came = Ok::<Plugin<I, E>, Why>(plugin);
                    assert(replaced(*publish, was, manifest, signer, digest, result, came));
                    assert(rebuilt(*build, *publish, *self, was, manifest, ruling, came));
                }
                Ok(plugin)
            },
        }
    }
}

/// A reload never changes who depends on whom by name: the loaded names, and so the places
/// that dependents were wired to, are those of before.
pub proof fn reload_keeps_places<I, E>(before: Registry<I, E>, plugin: Plugin<I, E>, at: int)
    requires
        before.wf(),
        0 <= at < before.plugins@.len(),
        plugin.manifest.name@ == before.plugins@[at].manifest.name@,
    ensures
        plugin_names(before.plugins@.update(at, plugin)) == before.loaded(),
{
    assert(plugin_names(before.plugins@.update(at, plugin)) =~= before.loaded());
}

} // verus!
