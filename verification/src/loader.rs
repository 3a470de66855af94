//! A whole load: every plugin of a root is tried in its turn, and what comes of each is
//! recorded.
//!
//! What only the host can do is handed in: looking rocks up, reading the files of a plugin,
//! preparing a state for it, and building it there.

use crate::budget::Budget;
use crate::failure::{failed, FailureReason, Failed, LoadFailure, RegistryError};
use crate::load::{
    begun, placement, refused_early, Loading, Placement, Progress, Rocks, Step,
};
use crate::manifest::Manifest;
use crate::registry::{Group, Isolation, LoadReport, Plugin, Registry, StateSource};
use crate::signature::{DirectoryDigest, Signer};
use crate::text;
use crate::trust::{ruled_on, Listing};
use vstd::prelude::*;

verus! {

/// A plugin that was built.
#[derive(Debug)]
pub struct Built<I, E> {
    pub instance: I,
    /// What it publishes to its dependents.
    pub exports: Option<E>,
    /// Names of the capabilities bound for it.
    pub granted: Vec<String>,
    /// The allowance of the state it was built in.
    pub budget: Option<Budget>,
}

/// What the host does for a load.
pub struct Works<R, L, S, B> {
    /// Looks up the rocks a plugin declares.
    pub rocks: R,
    /// Reads the files of a plugin.
    pub files: L,
    /// Prepares a state for a plugin that has none to share, or says why it cannot.
    pub prepare: S,
    /// Builds a plugin in the state of its group.
    pub build: B,
}

/// A load between two plugins.
pub struct Stage<I, E> {
    pub registry: Registry<I, E>,
    pub progress: Progress,
}

/// What is left of a load when its next plugin did not load.
pub open spec fn without_next(progress: Progress, reason: crate::failure::Why) -> Progress {
    let manifest = progress.queue[0];
    Progress {
        queue: progress.queue.drop_first(),
        fallen: progress.fallen.insert(manifest.name@),
        failures: progress.failures.push(
            Failed { name: manifest.name@, dir: manifest.dir@, reason },
        ),
        ..progress
    }
}

/// What is left of a load when its next plugin was built.
pub open spec fn with_next(progress: Progress) -> Progress {
    Progress {
        queue: progress.queue.drop_first(),
        loaded: progress.loaded.push(progress.queue[0].name@),
        ..progress
    }
}

/// Where a registry takes a state from.
pub open spec fn source_of<I, E>(registry: Registry<I, E>) -> StateSource {
    match registry.isolation {
        Isolation::Shared => StateSource::Host { configure: !registry.shared_configured },
        _ => StateSource::Fresh,
    }
}

/// Whether a registry is another one whose own state has been configured.
pub open spec fn state_taken<I, E>(now: Registry<I, E>, was: Registry<I, E>) -> bool {
    &&& now.wf()
    &&& now.plugins@ == was.plugins@
    &&& match was.isolation {
        Isolation::Shared => now.same_rules(Registry { shared_configured: true, ..was }),
        _ => now.same_rules(was),
    }
}

/// Whether the next plugin is placed so: in the state of its group, in a new one for its
/// group, or in what the isolation hands out.
pub open spec fn placed<I, E, S: Fn(&Manifest, Placement, StateSource) -> Option<String>>(
    prepare: S,
    before: Stage<I, E>,
    group: Group,
    after: Stage<I, E>,
) -> bool {
    let manifest = before.progress.queue[0];
    match placement(before.progress.components, before.progress.states, manifest.name@) {
        Placement::With(shared) => group == shared && after == before,
        Placement::Alone => {
            &&& call_ensures(
                prepare,
                (&manifest, Placement::Alone, source_of(before.registry)),
                None,
            )
            &&& group == Group(0)
            &&& state_taken(after.registry, before.registry)
            &&& after.progress == before.progress
        },
        Placement::First(component) => {
            &&& call_ensures(
                prepare,
                (&manifest, Placement::First(component), source_of(before.registry)),
                None,
            )
            &&& group == Group(before.registry.next_group)
            &&& after.registry.wf()
            &&& after.registry.plugins@ == before.registry.plugins@
            &&& after.registry.same_rules(
                Registry { next_group: after.registry.next_group, ..before.registry },
            )
            &&& after.registry.next_group as int == if before.registry.next_group == u64::MAX {
                u64::MAX as int
            } else {
                before.registry.next_group + 1
            }
            &&& after.progress == (Progress {
                states: before.progress.states.push((component, group)),
                ..before.progress
            })
        },
    }
}

/// Whether building the next plugin comes to this.
pub open spec fn concluded<I, E>(
    placed: Stage<I, E>,
    group: Group,
    signer: Signer,
    digest: Option<DirectoryDigest>,
    built: Result<Built<I, E>, FailureReason>,
    after: Stage<I, E>,
) -> bool {
    match built {
        Err(reason) => {
            &&& after.registry == placed.registry
            &&& after.progress == without_next(placed.progress, reason@)
        },
        Ok(built) => {
            &&& after.registry.wf()
            &&& after.registry.same_rules(placed.registry)
            &&& after.registry.plugins@ == placed.registry.plugins@.push(
                Plugin {
                    manifest: placed.progress.queue[0],
                    granted: built.granted,
                    group,
                    signer,
                    digest,
                    instance: built.instance,
                    exports: built.exports,
                    budget: built.budget,
                },
            )
            &&& after.progress == with_next(placed.progress)
        },
    }
}

/// Whether the next plugin, on whose word it loads being known, comes to this.
pub open spec fn admitted_to<
    I,
    E,
    R,
    L,
    S: Fn(&Manifest, Placement, StateSource) -> Option<String>,
    B: Fn(&Registry<I, E>, &Manifest, Group, &Signer, &Option<DirectoryDigest>) -> Result<
        Built<I, E>,
        FailureReason,
    >,
>(
    works: Works<R, L, S, B>,
    before: Stage<I, E>,
    admission: Result<(Signer, Option<DirectoryDigest>), FailureReason>,
    after: Stage<I, E>,
) -> bool {
    match admission {
        Err(reason) => {
            &&& after.registry == before.registry
            &&& after.progress == without_next(before.progress, reason@)
        },
        Ok((signer, digest)) => exists|
            group: Group,
            middle: Stage<I, E>,
            built: Result<Built<I, E>, FailureReason>,
        |
            {
                &&& #[trigger] placed(works.prepare, before, group, middle)
                &&& call_ensures(
                    works.build,
                    (&middle.registry, &before.progress.queue[0], group, &signer, &digest),
                    built,
                )
                &&& #[trigger] concluded(middle, group, signer, digest, built, after)
            },
    }
}

/// Whether the registry may rule so on a plugin, given the files that are read.
pub open spec fn ruled_by_files<I, E, L: Fn(&Manifest) -> Listing>(
    registry: Registry<I, E>,
    files: L,
    manifest: Manifest,
    admission: Result<(Signer, Option<DirectoryDigest>), FailureReason>,
) -> bool {
    exists|listing: Listing| #[trigger]
        call_ensures(files, (&manifest,), listing) && ruled_on(
            registry,
            manifest,
            listing,
            admission,
        )
}

/// Whether a load gets from one plugin to the next so: the plugin is refused before it is
/// looked at, refused for want of someone's word, or built, well or not.
pub open spec fn tried<
    I,
    E,
    R: Fn(&Manifest) -> Rocks,
    L: Fn(&Manifest) -> Listing,
    S: Fn(&Manifest, Placement, StateSource) -> Option<String>,
    B: Fn(&Registry<I, E>, &Manifest, Group, &Signer, &Option<DirectoryDigest>) -> Result<
        Built<I, E>,
        FailureReason,
    >,
>(works: Works<R, L, S, B>, before: Stage<I, E>, after: Stage<I, E>) -> bool {
    let manifest = before.progress.queue[0];
    &&& before.progress.queue.len() > 0
    &&& exists|rocks: Rocks| #[trigger]
        call_ensures(works.rocks, (&manifest,), rocks) && match refused_early(
            manifest,
            before.registry.loaded().contains(manifest.name@),
            before.progress.fallen,
            before.registry.isolation,
            rocks,
        ) {
            Some(reason) => {
                &&& after.registry == before.registry
                &&& after.progress == without_next(before.progress, reason)
            },
            None => exists|admission: Result<(Signer, Option<DirectoryDigest>), FailureReason>|
                #[trigger]
                ruled_by_files(before.registry, works.files, manifest, admission) && admitted_to(
                    works,
                    before,
                    admission,
                    after,
                ),
        }
}

/// Whether each stage is followed by the one that its next plugin leads to.
pub open spec fn follows<
    I,
    E,
    R: Fn(&Manifest) -> Rocks,
    L: Fn(&Manifest) -> Listing,
    S: Fn(&Manifest, Placement, StateSource) -> Option<String>,
    B: Fn(&Registry<I, E>, &Manifest, Group, &Signer, &Option<DirectoryDigest>) -> Result<
        Built<I, E>,
        FailureReason,
    >,
>(works: Works<R, L, S, B>, stages: Seq<Stage<I, E>>) -> bool {
    forall|i: int|
        0 <= i < stages.len() - 1 ==> tried(works, #[trigger] stages[i], stages[i + 1])
}

/// Whether a state for the next plugin could not be had.
pub open spec fn stuck<I, E, S: Fn(&Manifest, Placement, StateSource) -> Option<String>>(
    prepare: S,
    stage: Stage<I, E>,
    message: Seq<char>,
) -> bool {
    exists|place: Placement, said: String|
        {
            &&& stage.progress.queue.len() > 0
            &&& place == placement(
                stage.progress.components,
                stage.progress.states,
                stage.progress.queue[0].name@,
            )
            &&& #[trigger] call_ensures(
                prepare,
                (&stage.progress.queue[0], place, source_of(stage.registry)),
                Some(said),
            )
            &&& said@ == message
        }
}

/// Whether a load comes to this: stages from its start on, each following from the one before,
/// until nothing is left or no state can be had.
pub open spec fn load_comes_to<
    I,
    E,
    R: Fn(&Manifest) -> Rocks,
    L: Fn(&Manifest) -> Listing,
    S: Fn(&Manifest, Placement, StateSource) -> Option<String>,
    B: Fn(&Registry<I, E>, &Manifest, Group, &Signer, &Option<DirectoryDigest>) -> Result<
        Built<I, E>,
        FailureReason,
    >,
>(
    works: Works<R, L, S, B>,
    stages: Seq<Stage<I, E>>,
    start: Registry<I, E>,
    manifests: Seq<Manifest>,
    unreadable: Seq<LoadFailure>,
    r: Result<LoadReport, RegistryError>,
    end: Registry<I, E>,
) -> bool {
    &&& stages.len() > 0
    &&& stages[0].registry == start
    &&& begun(stages[0].progress, manifests, unreadable, start.isolation)
    &&& follows(works, stages)
    &&& match r {
        Ok(report) => {
            &&& stages.last().progress.queue.len() == 0
            &&& end == stages.last().registry
            &&& text::texts(report.loaded@) == stages.last().progress.loaded
            &&& failed(report.failures@) == stages.last().progress.failures
        },
        Err(error) => {
            &&& end == stages.last().registry
            &&& error matches RegistryError::Lua(message)
            &&& stuck(works.prepare, stages.last(), message@)
        },
    }
}

/// Whether loading what was discovered comes to this: a failure of the host's own setup is
/// surfaced before anything is loaded.
pub open spec fn load_dir_comes_to<
    I,
    E,
    R: Fn(&Manifest) -> Rocks,
    L: Fn(&Manifest) -> Listing,
    S: Fn(&Manifest, Placement, StateSource) -> Option<String>,
    B: Fn(&Registry<I, E>, &Manifest, Group, &Signer, &Option<DirectoryDigest>) -> Result<
        Built<I, E>,
        FailureReason,
    >,
>(
    works: Works<R, L, S, B>,
    start: Registry<I, E>,
    manifests: Seq<Manifest>,
    unreadable: Seq<LoadFailure>,
    r: Result<LoadReport, RegistryError>,
    end: Registry<I, E>,
) -> bool {
    match start.setup_error {
        Some(message) => {
            &&& r matches Err(RegistryError::Lua(said))
            &&& said@ == message@
            &&& end == start
        },
        None => exists|stages: Seq<Stage<I, E>>| #[trigger]
            load_comes_to(works, stages, start, manifests, unreadable, r, end),
    }
}

impl<I, E> Registry<I, E> {
    /// Places the plugin that a load has come to, or says why no state can be had for it.
    fn place_next<S: Fn(&Manifest, Placement, StateSource) -> Option<String>>(
        &mut self,
        loading: &mut Loading,
        manifest: &Manifest,
        prepare: &S,
        before: Ghost<Stage<I, E>>,
    ) -> (r: Result<Group, String>)
        requires
            old(self).wf(),
            old(loading).wf(),
            before@.progress.queue.len() > 0,
            *manifest == before@.progress.queue[0],
            before@.registry == *old(self),
            old(loading)@ == (Progress {
                queue: before@.progress.queue.drop_first(),
                ..before@.progress
            }),
            forall|m: Manifest, p: Placement, s: StateSource| call_requires(*prepare, (&m, p, s)),
        ensures
            final(self).wf(),
            final(loading).wf(),
            final(loading)@ == (Progress { states: final(loading)@.states, ..old(loading)@ }),
            match r {
                Ok(group) => placed(
                    *prepare,
                    before@,
                    group,
                    (Stage {
                        registry: *final(self),
                        progress: Progress {
                            states: final(loading)@.states,
                            ..before@.progress
                        },
                    }),
                ),
                Err(message) => {
                    &&& *final(self) == *old(self)
                    &&& stuck(
                        *prepare,
                        before@,
                        message@,
                    )
                },
            },
    {
        let place = loading.placement(manifest.name.as_str());
        let source = self.acquire_state();
        match place {
            Placement::With(group) => Ok(group),
            Placement::Alone => {
                let failed = prepare(manifest, place, source);
                proof {
                    assert(call_ensures(*prepare, (manifest, place, source), failed));
                }
                match failed {
                    Some(message) => Err(message),
                    None => {
                        if let StateSource::Host { configure: _ } = source {
                            self.mark_configured();
                        }
                        Ok(Group(0))
                    },
                }
            },
            Placement::First(component) => {
                let failed = prepare(manifest, place, source);
                proof {
                    assert(call_ensures(*prepare, (manifest, place, source), failed));
                }
                match failed {
                    Some(message) => Err(message),
                    None => Ok(loading.open_group(self, component)),
                }
            },
        }
    }

    /// Loads every plugin that was discovered, given those whose manifest could not be read.
    ///
    /// One bad plugin never stops the others: it is reported, and so is every plugin that
    /// requires it. Only a state that cannot be had ends a load early; what was loaded until
    /// then stays.
    #[verifier::rlimit(60)]
    pub fn load_dir<
        R: Fn(&Manifest) -> Rocks,
        L: Fn(&Manifest) -> Listing,
        S: Fn(&Manifest, Placement, StateSource) -> Option<String>,
        B: Fn(&Registry<I, E>, &Manifest, Group, &Signer, &Option<DirectoryDigest>) -> Result<
            Built<I, E>,
            FailureReason,
        >,
    >(
        &mut self,
        manifests: Vec<Manifest>,
        unreadable: Vec<LoadFailure>,
        rocks: &R,
        files: &L,
        prepare: &S,
        build: &B,
    ) -> (r: Result<LoadReport, RegistryError>)
        requires
            old(self).wf(),
            forall|i: int| 0 <= i < manifests@.len() ==> (#[trigger] manifests@[i]).wf(),
            forall|m: Manifest| call_requires(*rocks, (&m,)),
            forall|m: Manifest| call_requires(*files, (&m,)),
            forall|m: Manifest, p: Placement, s: StateSource| call_requires(*prepare, (&m, p, s)),
            forall|
                g: Registry<I, E>,
                m: Manifest,
                at: Group,
                s: Signer,
                d: Option<DirectoryDigest>,
            |
                g.wf() && m.wf() ==> call_requires(*build, (&g, &m, at, &s, &d)),
        ensures
            final(self).wf(),
            load_dir_comes_to(
                (Works { rocks: *rocks, files: *files, prepare: *prepare, build: *build }),
                *old(self),
                manifests@,
                unreadable@,
                r,
                *final(self),
            ),
    {
        match self.check_setup() {
            Err(error) => {
                return Err(error);
            },
            Ok(_) => {},
        }
        let ghost works = Works { rocks: *rocks, files: *files, prepare: *prepare, build: *build };
        let ghost start = *self;
        let mut loading = Loading::begin(manifests, unreadable, &self.isolation);
        let ghost mut stages = seq![Stage { registry: *self, progress: loading@ }];
        loop
            invariant
                works == (Works { rocks: *rocks, files: *files, prepare: *prepare, build: *build }),
                start == *old(self),
                old(self).setup_error is None,
                self.wf(),
                loading.wf(),
                forall|m: Manifest| call_requires(*rocks, (&m,)),
                forall|m: Manifest| call_requires(*files, (&m,)),
                forall|m: Manifest, p: Placement, s: StateSource|
                    call_requires(*prepare, (&m, p, s)),
                forall|
                    g: Registry<I, E>,
                    m: Manifest,
                    at: Group,
                    s: Signer,
                    d: Option<DirectoryDigest>,
                |
                    g.wf() && m.wf() ==> call_requires(*build, (&g, &m, at, &s, &d)),
                stages.len() > 0,
                stages[0].registry == start,
                begun(stages[0].progress, manifests@, unreadable@, start.isolation),
                follows(works, stages),
                stages.last() == (Stage { registry: *self, progress: loading@ }),
            ensures
                loading@.queue.len() == 0,
            decreases loading@.queue.len(),
        {
            let ghost before = Stage { registry: *self, progress: loading@ };
            let ghost had = stages;
            let looked = match loading.peek() {
                None => {
                    break;
                },
                Some(next) => rocks(next),
            };
            proof {
                assert(call_ensures(works.rocks, (&before.progress.queue[0],), looked));
            }
            match loading.next(self, &looked) {
                Step::Done => {
                    break;
                },
                Step::Skipped => {
                    proof {
                        let after = Stage { registry: *self, progress: loading@ };
                        assert(tried(works, before, after));
                        stages = had.push(after);
                        stage_added(works, had, after);
                    }
                },
                Step::Load(manifest) => {
                    let listing = files(&manifest);
                    let ghost read = listing;
                    let admission = self.verify_plugin(&manifest, listing);
                    let ghost ruling = admission;
                    proof {
                        assert(manifest == before.progress.queue[0]);
                        assert(call_ensures(works.files, (&manifest,), read));
                        assert(ruled_by_files(before.registry, works.files, manifest, ruling));
                    }
                    match admission {
                        Err(reason) => {
                            loading.record_failure(&manifest, reason);
                            proof {
                                let after = Stage { registry: *self, progress: loading@ };
                                assert(admitted_to(works, before, ruling, after));
                                assert(tried(works, before, after));
                                stages = had.push(after);
                                stage_added(works, had, after);
                            }
                        },
                        Ok((signer, digest)) => {
                            let found = self.place_next(
                                &mut loading,
                                &manifest,
                                prepare,
                                Ghost(before),
                            );
                            let group: Group = match found {
                                Ok(group) => group,
                                Err(message) => {
                                    proof {
                                        assert(load_comes_to(
                                            works,
                                            stages,
                                            *old(self),
                                            manifests@,
                                            unreadable@,
                                            Err(RegistryError::Lua(message)),
                                            *self,
                                        ));
                                    }
                                    return Err(RegistryError::Lua(message));
                                },
                            };
                            let ghost middle = Stage {
                                registry: *self,
                                progress: Progress {
                                    states: loading@.states,
                                    ..before.progress
                                },
                            };
                            proof {
                                assert(placed(works.prepare, before, group, middle));
                            }
                            let made = build(self, &manifest, group, &signer, &digest);
                            let ghost result = made;
                            let ghost word = signer;
                            let ghost print = digest;
                            match made {
                                Err(reason) => {
                                    loading.record_failure(&manifest, reason);
                                },
                                Ok(built) => {
                                    let plugin = Plugin {
                                        manifest,
                                        granted: built.granted,
                                        group,
                                        signer,
                                        digest,
                                        instance: built.instance,
                                        exports: built.exports,
                                        budget: built.budget,
                                    };
                                    loading.record_loaded(self, plugin);
                                },
                            }
                            proof {
                                let after = Stage { registry: *self, progress: loading@ };
                                assert(concluded(middle, group, word, print, result, after));
                                assert(admitted_to(works, before, ruling, after));
                                assert(tried(works, before, after));
                                stages = had.push(after);
                                stage_added(works, had, after);
                            }
                        },
                    }
                },
            }
        }
        let report = loading.finish();
        proof {
            assert(load_comes_to(
                works,
                stages,
                *old(self),
                manifests@,
                unreadable@,
                Ok(report),
                *self,
            ));
        }
        Ok(report)
    }
}

proof fn stage_added<
    I,
    E,
    R: Fn(&Manifest) -> Rocks,
    L: Fn(&Manifest) -> Listing,
    S: Fn(&Manifest, Placement, StateSource) -> Option<String>,
    B: Fn(&Registry<I, E>, &Manifest, Group, &Signer, &Option<DirectoryDigest>) -> Result<
        Built<I, E>,
        FailureReason,
    >,
>(works: Works<R, L, S, B>, stages: Seq<Stage<I, E>>, after: Stage<I, E>)
    requires
        stages.len() > 0,
        follows(works, stages),
        tried(works, stages.last(), after),
    ensures
        follows(works, stages.push(after)),
{
    let more = stages.push(after);
    assert forall|i: int| 0 <= i < more.len() - 1 implies tried(
        works,
        #[trigger] more[i],
        more[i + 1],
    ) by {
        if i < stages.len() - 1 {
            assert(tried(works, stages[i], stages[i + 1]));
        }
    }
}

} // verus!
