//! Loading and reloading plugins of every runtime through one host.

use crate::error::Error;
use crate::failure::{FailureReason, LoadFailure, RegistryError};
use crate::backend::BoxedInstance;
use crate::host::{
    entry_names, failure_views, of_type_upto, split_by_type, split_keeps_every_plugin,
    told_failures, Failure, FailureModel, LoadReport, Stanchion,
};
use crate::load::{Placement, Rocks};
use crate::load_laws::a_load_accounts_for_every_plugin;
use crate::loader::{load_comes_to, load_dir_comes_to, Built, Stage, Works};
use crate::manifest::Manifest;
use crate::registry;
use crate::registry::{Group, Registry, StateSource};
use crate::reload::reload_outcome;
use crate::signature::{DirectoryDigest, Signer};
use crate::text;
use crate::trust::Listing;
use vstd::prelude::*;
use vstd::string::*;

verus! {

/// The Lua plugins of a host.
pub type LuaRegistry<E> = Registry<BoxedInstance, E>;

/// A registry's error as a foreign caller sees it.
pub open spec fn foreign_error(error: RegistryError, r: Error) -> bool {
    match error {
        RegistryError::UnknownPlugin(name) => r == Error::UnknownPlugin(name),
        RegistryError::Reload(failure) => r matches Error::Plugin { plugin, reason } && plugin@
            == failure.name@ && reason@ == failure.reason@.message(),
        RegistryError::Lua(message) => r == Error::Lua(message),
        RegistryError::Io { .. } => r matches Error::Io(said) && said@ == error.message(),
        RegistryError::Rocks(_) => r matches Error::Io(said) && said@ == error.message(),
    }
}

/// A registry's error as a foreign caller sees it: what failed with one plugin is that
/// plugin's, what Lua raised is Lua's, and anything else could not be read.
pub fn to_error(error: RegistryError) -> (r: Error)
    ensures
        foreign_error(error, r),
{
    let text = error.to_string();
    match error {
        RegistryError::UnknownPlugin(name) => Error::UnknownPlugin(name),
        RegistryError::Reload(failure) => {
            let reason = failure.reason.to_string();
            Error::Plugin { plugin: failure.name, reason }
        },
        RegistryError::Lua(message) => Error::Lua(message),
        RegistryError::Io { path: _, source: _ } => Error::Io(text),
        RegistryError::Rocks(_) => Error::Io(text),
    }
}

/// What a report says, apart from how it is stored.
pub struct ReportModel {
    pub loaded: Seq<Seq<char>>,
    pub failures: Seq<FailureModel>,
}

impl View for LoadReport {
    type V = ReportModel;

    open spec fn view(&self) -> ReportModel {
        ReportModel { loaded: text::texts(self.loaded@), failures: failure_views(self.failures@) }
    }
}

/// What is reported of a load of Lua plugins, with the plugins that could not be read: where
/// it failed as a whole, each of them failed.
pub open spec fn lua_report(
    manifests: Seq<Manifest>,
    unreadable: Seq<LoadFailure>,
    r: Result<registry::LoadReport, RegistryError>,
) -> ReportModel {
    match r {
        Ok(report) => ReportModel {
            loaded: text::texts(report.loaded@),
            failures: told_failures(report.failures@),
        },
        Err(error) => ReportModel {
            loaded: Seq::empty(),
            failures: told_failures(unreadable) + manifests.map_values(
                |m: Manifest| (m.name@, error.message()),
            ),
        },
    }
}

/// What is reported of the first `n` plugins of other runtimes, given what came of each.
pub open spec fn other_report(
    start: ReportModel,
    manifests: Seq<Manifest>,
    results: Seq<Result<(), Failure>>,
    n: int,
) -> ReportModel
    decreases n,
{
    if n <= 0 {
        start
    } else {
        let done = other_report(start, manifests, results, n - 1);
        match results[n - 1] {
            Ok(_) => ReportModel { loaded: done.loaded.push(manifests[n - 1].name@), ..done },
            Err(failure) => ReportModel { failures: done.failures.push(failure@), ..done },
        }
    }
}

/// Whether each plugin of another runtime leads from one host to the next.
pub open spec fn others_follow<E, L: Fn(&Manifest) -> Listing>(
    files: L,
    manifests: Seq<Manifest>,
    hosts: Seq<Stanchion<E>>,
    results: Seq<Result<(), Failure>>,
) -> bool {
    &&& hosts.len() == results.len() + 1
    &&& results.len() <= manifests.len()
    &&& forall|k: int|
        0 <= k < results.len() ==> other_tried(
            files,
            hosts[k],
            manifests[k],
            #[trigger] results[k],
            hosts[k + 1],
        )
}

/// Whether a plugin of another runtime leads from one host to the next, given the files that
/// are read.
pub open spec fn other_tried<E, L: Fn(&Manifest) -> Listing>(
    files: L,
    before: Stanchion<E>,
    manifest: Manifest,
    r: Result<(), Failure>,
    after: Stanchion<E>,
) -> bool {
    exists|listing: Listing| #[trigger]
        call_ensures(files, (&manifest,), listing) && before.load_comes_to(
            manifest,
            listing,
            r,
            after,
        )
}

/// Whether loading the Lua plugins comes to this. Where there are none, what could not be read
/// is still reported.
pub open spec fn lua_loaded<
    E,
    R: Fn(&Manifest) -> Rocks,
    L: Fn(&Manifest) -> Listing,
    S: Fn(&Manifest, Placement, StateSource) -> Option<String>,
    B: Fn(&LuaRegistry<E>, &Manifest, Group, &Signer, &Option<DirectoryDigest>) -> Result<
        Built<BoxedInstance, E>,
        FailureReason,
    >,
>(
    works: Works<R, L, S, B>,
    start: LuaRegistry<E>,
    manifests: Seq<Manifest>,
    unreadable: Seq<LoadFailure>,
    report: ReportModel,
    end: LuaRegistry<E>,
) -> bool {
    if manifests.len() == 0 {
        end == start && report == (ReportModel {
            loaded: Seq::empty(),
            failures: told_failures(unreadable),
        })
    } else {
        exists|r: Result<registry::LoadReport, RegistryError>| #[trigger]
            load_dir_comes_to(works, start, manifests, unreadable, r, end) && report
                == lua_report(manifests, unreadable, r)
    }
}

/// Whether loading the plugins of a root comes to this: the Lua plugins first, then the others
/// in their order.
pub open spec fn host_loaded<
    E,
    R: Fn(&Manifest) -> Rocks,
    L: Fn(&Manifest) -> Listing,
    S: Fn(&Manifest, Placement, StateSource) -> Option<String>,
    B: Fn(&LuaRegistry<E>, &Manifest, Group, &Signer, &Option<DirectoryDigest>) -> Result<
        Built<BoxedInstance, E>,
        FailureReason,
    >,
>(
    works: Works<R, L, S, B>,
    before: Stanchion<E>,
    manifests: Seq<Manifest>,
    unreadable: Seq<LoadFailure>,
    lua: ReportModel,
    hosts: Seq<Stanchion<E>>,
    results: Seq<Result<(), Failure>>,
    report: ReportModel,
    after: Stanchion<E>,
) -> bool {
    let n = manifests.len() as int;
    let others = of_type_upto(manifests, false, n);
    &&& hosts.len() > 0
    &&& hosts[0].id == before.id
    &&& hosts[0].backends == before.backends
    &&& hosts[0].instances == before.instances
    &&& hosts[0].default_root == before.default_root
    &&& hosts[0].offered == before.offered
    &&& lua_loaded(
        works,
        before.registry,
        of_type_upto(manifests, true, n),
        unreadable,
        lua,
        hosts[0].registry,
    )
    &&& results.len() == others.len()
    &&& others_follow(works.files, others, hosts, results)
    &&& after == hosts.last()
    &&& report == other_report(lua, others, results, others.len() as int)
}

/// The names of manifests.
fn names_of(manifests: &Vec<Manifest>) -> (r: Vec<String>)
    ensures
        text::texts(r@) == manifests@.map_values(|m: Manifest| m.name@),
{
    let n: usize = manifests.len();
    let mut out: Vec<String> = Vec::new();
    let mut i: usize = 0;
    while i < n
        invariant
            i <= n,
            n == manifests.len(),
            out@.len() == i,
            forall|k: int| 0 <= k < i ==> (#[trigger] out@[k])@ == manifests@[k].name@,
        decreases n - i,
    {
        out.push(manifests[i].name.clone());
        i = i + 1;
    }
    proof {
        assert(text::texts(out@) =~= manifests@.map_values(|m: Manifest| m.name@));
    }
    out
}

proof fn wf_of_type(ms: Seq<Manifest>, lua: bool, n: int)
    requires
        0 <= n <= ms.len(),
        forall|i: int| 0 <= i < ms.len() ==> (#[trigger] ms[i]).wf(),
    ensures
        forall|i: int|
            0 <= i < of_type_upto(ms, lua, n).len() ==> (#[trigger] of_type_upto(ms, lua, n)[i]).wf(),
    decreases n,
{
    if n > 0 {
        wf_of_type(ms, lua, n - 1);
        let less = of_type_upto(ms, lua, n - 1);
        let here = of_type_upto(ms, lua, n);
        assert(ms[n - 1].wf());
        assert forall|i: int| 0 <= i < here.len() implies (#[trigger] here[i]).wf() by {
            if i < less.len() {
                assert(here[i] == less[i]);
            }
        }
    }
}

impl<E> Stanchion<E> {
    /// Loads every plugin that was discovered, given those whose manifest could not be read:
    /// Lua plugins into the registry, the others through the backends of their types. One
    /// plugin failing never stops the others.
    pub fn load<
        R: Fn(&Manifest) -> Rocks,
        L: Fn(&Manifest) -> Listing,
        S: Fn(&Manifest, Placement, StateSource) -> Option<String>,
        B: Fn(&LuaRegistry<E>, &Manifest, Group, &Signer, &Option<DirectoryDigest>) -> Result<
            Built<BoxedInstance, E>,
            FailureReason,
        >,
    >(
        &mut self,
        manifests: Vec<Manifest>,
        unreadable: Vec<LoadFailure>,
        rocks: &R,
        files: &L,
        prepare: &S,
        build: &B,
    ) -> (r: LoadReport)
        requires
            old(self).wf(),
            forall|i: int| 0 <= i < manifests@.len() ==> (#[trigger] manifests@[i]).wf(),
            forall|m: Manifest| call_requires(*rocks, (&m,)),
            forall|m: Manifest| call_requires(*files, (&m,)),
            forall|m: Manifest, p: Placement, s: StateSource| call_requires(*prepare, (&m, p, s)),
            forall|
                g: LuaRegistry<E>,
                m: Manifest,
                at: Group,
                s: Signer,
                d: Option<DirectoryDigest>,
            |
                g.wf() && m.wf() ==> call_requires(*build, (&g, &m, at, &s, &d)),
        ensures
            final(self).wf(),
            exists|
                lua: ReportModel,
                hosts: Seq<Stanchion<E>>,
                results: Seq<Result<(), Failure>>,
            | #[trigger]
                host_loaded(
                    (Works { rocks: *rocks, files: *files, prepare: *prepare, build: *build }),
                    *old(self),
                    manifests@,
                    unreadable@,
                    lua,
                    hosts,
                    results,
                    r@,
                    *final(self),
                ),
    {
        let ghost works = Works {
            rocks: *rocks,
            files: *files,
            prepare: *prepare,
            build: *build,
        };
        let ghost all = manifests@;
        proof {
            wf_of_type(all, true, all.len() as int);
            wf_of_type(all, false, all.len() as int);
        }
        let (lua, others) = split_by_type(manifests);
        let ghost lua_models = lua@;
        let ghost other_models = others@;
        let mut report = LoadReport::new();
        report.add_failures(&unreadable);
        proof {
            assert(report@.loaded =~= Seq::empty());
            assert(report@.failures =~= told_failures(unreadable@));
        }
        if lua.len() > 0 {
            let names = names_of(&lua);
            let result = self.registry.load_dir(lua, unreadable, rocks, files, prepare, build);
            let ghost came = result;
            match result {
                Ok(loaded) => {
                    let ghost told = loaded;
                    // What could not be read is part of that report.
                    report = LoadReport::new();
                    report.add_lua(loaded);
                    proof {
                        assert(report@.loaded =~= text::texts(told.loaded@));
                        assert(report@.failures =~= told_failures(told.failures@));
                    }
                },
                Err(error) => {
                    report.add_lua_failure(&names, &error);
                    proof {
                        assert(text::texts(names@).len() == names@.len());
                        assert forall|k: int| 0 <= k < names@.len() implies names@[k]@
                            == lua_models[k].name@ by {
                            assert(text::texts(names@)[k] == lua_models[k].name@);
                        }
                        assert(report@.failures =~= told_failures(unreadable@)
                            + lua_models.map_values(|m: Manifest| (m.name@, error.message())));
                        assert(report@.loaded =~= Seq::empty());
                    }
                },
            }
            proof {
                assert(load_dir_comes_to(
                    works,
                    old(self).registry,
                    lua_models,
                    unreadable@,
                    came,
                    self.registry,
                ));
                assert(report@ == lua_report(lua_models, unreadable@, came));
            }
        }
        let ghost told = report@;
        let ghost first = *self;
        proof {
            assert(lua_loaded(
                works,
                old(self).registry,
                lua_models,
                unreadable@,
                told,
                first.registry,
            ));
        }
        let ghost mut hosts = seq![*self];
        let ghost mut results = Seq::<Result<(), Failure>>::empty();
        let n: usize = others.len();
        let mut i: usize = 0;
        while i < n
            invariant
                i <= n,
                n == others@.len(),
                others@ == other_models,
                forall|k: int| 0 <= k < n ==> (#[trigger] other_models[k]).wf(),
                forall|m: Manifest| call_requires(*files, (&m,)),
                works.files == *files,
                self.wf(),
                results.len() == i,
                hosts.len() == i + 1,
                hosts[0] == first,
                hosts.last() == *self,
                others_follow(works.files, other_models, hosts, results),
                report@ == other_report(told, other_models, results, i as int),
            decreases n - i,
        {
            let manifest = &others[i];
            let listing = files(manifest);
            let ghost read = listing;
            let ghost before = *self;
            let ghost had_hosts = hosts;
            let ghost had_results = results;
            let ghost then = report@;
            let result = self.load_other(manifest, listing);
            let ghost came = result;
            match result {
                Ok(_) => {
                    report.loaded.push(manifest.name.clone());
                },
                Err(failure) => {
                    report.failures.push(failure);
                },
            }
            proof {
                assert(call_ensures(works.files, (manifest,), read));
                assert(before.load_comes_to(*manifest, read, came, *self));
                assert(other_tried(works.files, before, *manifest, came, *self));
                hosts = had_hosts.push(*self);
                results = had_results.push(came);
                assert forall|k: int| 0 <= k < results.len() implies other_tried(
                    works.files,
                    hosts[k],
                    other_models[k],
                    #[trigger] results[k],
                    hosts[k + 1],
                ) by {
                    if k < i {
                        assert(results[k] == had_results[k]);
                        assert(hosts[k] == had_hosts[k]);
                        assert(hosts[k + 1] == had_hosts[k + 1]);
                    }
                }
                report_prefix(told, other_models, had_results, results, i as int);
                match came {
                    Ok(_) => {
                        assert(report@.loaded =~= then.loaded.push(manifest.name@));
                        assert(report@.failures =~= then.failures);
                    },
                    Err(failure) => {
                        assert(report@.failures =~= then.failures.push(failure@));
                        assert(report@.loaded =~= then.loaded);
                    },
                }
            }
            i = i + 1;
        }
        proof {
            assert(host_loaded(
                works,
                *old(self),
                all,
                unreadable@,
                told,
                hosts,
                results,
                report@,
                *self,
            ));
        }
        report
    }
}

proof fn report_prefix(
    start: ReportModel,
    manifests: Seq<Manifest>,
    a: Seq<Result<(), Failure>>,
    b: Seq<Result<(), Failure>>,
    n: int,
)
    requires
        n <= a.len(),
        n <= b.len(),
        forall|i: int| 0 <= i < n ==> a[i] == b[i],
    ensures
        other_report(start, manifests, a, n) == other_report(start, manifests, b, n),
    decreases n,
{
    if n > 0 {
        report_prefix(start, manifests, a, b, n - 1);
    }
}

/// Whether reloading a plugin of any runtime comes to this: a Lua plugin of the name, else one
/// of another runtime, whose manifest is read from where it was loaded.
pub open spec fn host_reloaded<
    E,
    X,
    R: Fn(&str) -> Result<Manifest, FailureReason>,
    L: Fn(&Manifest) -> Listing,
    B: Fn(&LuaRegistry<E>, &Manifest, Group, &Signer, &Option<DirectoryDigest>) -> Result<
        Built<BoxedInstance, X>,
        FailureReason,
    >,
    P: Fn(Option<&E>, X) -> Result<E, FailureReason>,
>(
    read: R,
    files: L,
    build: B,
    publish: P,
    before: Stanchion<E>,
    plugin: Seq<char>,
    r: Result<(), Error>,
    after: Stanchion<E>,
) -> bool {
    if before.registry.loaded().contains(plugin) {
        exists|came: Result<(), RegistryError>|
            {
                &&& #[trigger] reload_outcome(
                    read,
                    files,
                    build,
                    publish,
                    before.registry,
                    plugin,
                    came,
                    after.registry,
                )
                &&& match came {
                    Ok(_) => r is Ok,
                    Err(error) => r matches Err(said) && foreign_error(error, said),
                }
                &&& after.instances == before.instances
                &&& after.backends == before.backends
                &&& after.default_root == before.default_root
                &&& after.offered == before.offered
                &&& after.id == before.id
            }
    } else if !entry_names(before.instances@).contains(plugin) {
        &&& r matches Err(Error::UnknownPlugin(name))
        &&& name@ == plugin
        &&& after == before
    } else {
        exists|dir: &str, found: Result<Manifest, FailureReason>|
            {
                &&& dir@ == before.instances@[registry::first_of(
                    entry_names(before.instances@),
                    plugin,
                    0,
                )].dir@
                &&& #[trigger] call_ensures(read, (dir,), found)
                &&& other_reloaded(files, before, plugin, found, r, after)
            }
    }
}

/// Whether reloading a plugin of another runtime comes to this, given how its manifest was
/// read.
pub open spec fn other_reloaded<E, L: Fn(&Manifest) -> Listing>(
    files: L,
    before: Stanchion<E>,
    plugin: Seq<char>,
    found: Result<Manifest, FailureReason>,
    r: Result<(), Error>,
    after: Stanchion<E>,
) -> bool {
    exists|read: Result<Manifest, String>, listing: Listing|
        {
            &&& match found {
                Ok(manifest) => read == Ok::<Manifest, String>(manifest) && call_ensures(
                    files,
                    (&manifest,),
                    listing,
                ),
                Err(reason) => read matches Err(message) && message@ == reason@.message(),
            }
            &&& #[trigger] before.reload_comes_to(plugin, read, listing, r, after)
        }
}

impl<E> Stanchion<E> {
    /// Loads one plugin again from where it was loaded. A plugin that fails to reload leaves
    /// the old instance in place.
    pub fn reload<
        X,
        R: Fn(&str) -> Result<Manifest, FailureReason>,
        L: Fn(&Manifest) -> Listing,
        B: Fn(&LuaRegistry<E>, &Manifest, Group, &Signer, &Option<DirectoryDigest>) -> Result<
            Built<BoxedInstance, X>,
            FailureReason,
        >,
        P: Fn(Option<&E>, X) -> Result<E, FailureReason>,
    >(&mut self, plugin: &str, read: &R, files: &L, build: &B, publish: &P) -> (r: Result<(), Error>)
        requires
            old(self).wf(),
            forall|dir: &str| call_requires(*read, (dir,)),
            forall|dir: &str, found: Result<Manifest, FailureReason>| #[trigger]
                call_ensures(*read, (dir,), found) ==> (found matches Ok(m) ==> m.wf()),
            forall|m: Manifest| call_requires(*files, (&m,)),
            forall|
                g: LuaRegistry<E>,
                m: Manifest,
                at: Group,
                s: Signer,
                d: Option<DirectoryDigest>,
            |
                g.wf() && m.wf() ==> call_requires(*build, (&g, &m, at, &s, &d)),
            forall|had: Option<&E>, table: X| call_requires(*publish, (had, table)),
        ensures
            final(self).wf(),
            host_reloaded(
                *read,
                *files,
                *build,
                *publish,
                *old(self),
                plugin@,
                r,
                *final(self),
            ),
    {
        let result = self.registry.reload(plugin, read, files, build, publish);
        let ghost came = result;
        proof {
            assert(reload_outcome(
                *read,
                *files,
                *build,
                *publish,
                old(self).registry,
                plugin@,
                came,
                self.registry,
            ));
        }
        match result {
            Ok(_) => {
                return Ok(());
            },
            Err(error) => match error {
                RegistryError::UnknownPlugin(_) => {},
                other => {
                    return Err(to_error(other));
                },
            },
        }
        let dir = match self.instance_dir(plugin) {
            Err(error) => {
                return Err(error);
            },
            Ok(dir) => dir,
        };
        let at = dir.as_str();
        let found = read(at);
        let ghost reading = found;
        proof {
            assert(call_ensures(*read, (at,), reading));
        }
        let (fresh, listing): (Result<Manifest, String>, Listing) = match found {
            Ok(manifest) => {
                let listing = files(&manifest);
                (Ok(manifest), listing)
            },
            Err(reason) => (Err(reason.to_string()), Ok(Vec::new())),
        };
        let ghost seen = fresh;
        let ghost listed = listing;
        let ghost before = *self;
        let r = self.reload_other(plugin, fresh, listing);
        proof {
            assert(before.reload_comes_to(plugin@, seen, listed, r, *self));
            assert(other_reloaded(*files, before, plugin@, reading, r, *self));
        }
        r
    }
}

proof fn lua_adds_up<
    E,
    R: Fn(&Manifest) -> Rocks,
    L: Fn(&Manifest) -> Listing,
    S: Fn(&Manifest, Placement, StateSource) -> Option<String>,
    B: Fn(&LuaRegistry<E>, &Manifest, Group, &Signer, &Option<DirectoryDigest>) -> Result<
        Built<BoxedInstance, E>,
        FailureReason,
    >,
>(
    works: Works<R, L, S, B>,
    start: LuaRegistry<E>,
    manifests: Seq<Manifest>,
    unreadable: Seq<LoadFailure>,
    report: ReportModel,
    end: LuaRegistry<E>,
)
    requires
        lua_loaded(works, start, manifests, unreadable, report, end),
    ensures
        report.loaded.len() + report.failures.len() == manifests.len() + unreadable.len(),
        report.failures.len() >= unreadable.len(),
{
    assert(told_failures(unreadable).len() == unreadable.len());
    if manifests.len() > 0 {
        let r = choose|r: Result<registry::LoadReport, RegistryError>| #[trigger]
            load_dir_comes_to(works, start, manifests, unreadable, r, end) && report == lua_report(
                manifests,
                unreadable,
                r,
            );
        match r {
            Ok(told) => {
                came_in_full(works, start, manifests, unreadable, told, end);
                assert(text::texts(told.loaded@).len() == told.loaded@.len());
                assert(told_failures(told.failures@).len() == told.failures@.len());
            },
            Err(_) => {},
        }
    }
}

proof fn came_in_full<
    E,
    R: Fn(&Manifest) -> Rocks,
    L: Fn(&Manifest) -> Listing,
    S: Fn(&Manifest, Placement, StateSource) -> Option<String>,
    B: Fn(&LuaRegistry<E>, &Manifest, Group, &Signer, &Option<DirectoryDigest>) -> Result<
        Built<BoxedInstance, E>,
        FailureReason,
    >,
>(
    works: Works<R, L, S, B>,
    start: LuaRegistry<E>,
    manifests: Seq<Manifest>,
    unreadable: Seq<LoadFailure>,
    report: registry::LoadReport,
    end: LuaRegistry<E>,
)
    requires
        load_dir_comes_to(works, start, manifests, unreadable, Ok(report), end),
    ensures
        report.loaded@.len() + report.failures@.len() == unreadable.len() + manifests.len(),
        report.failures@.len() >= unreadable.len(),
{
    let r = Ok::<registry::LoadReport, RegistryError>(report);
    let stages = choose|stages: Seq<Stage<BoxedInstance, E>>| #[trigger]
        load_comes_to(works, stages, start, manifests, unreadable, r, end);
    a_load_accounts_for_every_plugin(works, stages, start, manifests, unreadable, report, end);
}

proof fn others_add_up(
    start: ReportModel,
    manifests: Seq<Manifest>,
    results: Seq<Result<(), Failure>>,
    n: int,
)
    requires
        0 <= n,
    ensures
        other_report(start, manifests, results, n).loaded.len() + other_report(
            start,
            manifests,
            results,
            n,
        ).failures.len() == start.loaded.len() + start.failures.len() + n,
        other_report(start, manifests, results, n).failures.len() >= start.failures.len(),
    decreases n,
{
    if n > 0 {
        others_add_up(start, manifests, results, n - 1);
    }
}

/// A report tells of every plugin that was discovered, readable or not, as loaded or as failed:
/// it is clean only when each of them loaded.
pub proof fn a_report_tells_of_every_plugin<
    E,
    R: Fn(&Manifest) -> Rocks,
    L: Fn(&Manifest) -> Listing,
    S: Fn(&Manifest, Placement, StateSource) -> Option<String>,
    B: Fn(&LuaRegistry<E>, &Manifest, Group, &Signer, &Option<DirectoryDigest>) -> Result<
        Built<BoxedInstance, E>,
        FailureReason,
    >,
>(
    works: Works<R, L, S, B>,
    before: Stanchion<E>,
    manifests: Seq<Manifest>,
    unreadable: Seq<LoadFailure>,
    lua: ReportModel,
    hosts: Seq<Stanchion<E>>,
    results: Seq<Result<(), Failure>>,
    report: ReportModel,
    after: Stanchion<E>,
)
    requires
        host_loaded(
            works,
            before,
            manifests,
            unreadable,
            lua,
            hosts,
            results,
            report,
            after,
        ),
    ensures
        report.loaded.len() + report.failures.len() == manifests.len() + unreadable.len(),
        report.failures.len() == 0 ==> report.loaded.len() == manifests.len() && unreadable.len()
            == 0,
{
    let n = manifests.len() as int;
    let own = of_type_upto(manifests, true, n);
    let others = of_type_upto(manifests, false, n);
    split_keeps_every_plugin(manifests, n);
    others_add_up(lua, others, results, others.len() as int);
    lua_adds_up(works, before.registry, own, unreadable, lua, hosts[0].registry);
}

} // verus!
