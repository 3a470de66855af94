//! Where a plugin's own modules are found, and that what is loaded is what was verified.

use crate::failure::{FailureReason, Why};
use crate::manifest::{entry_fault, valid_entry_is_confined, Manifest, PluginType};
use crate::names::NameMap;
use crate::path;
use crate::path::{path_steps, Component, Step};
use crate::resolve;
use crate::signature::{hash_at, sha256_of, DirectoryDigest};
use crate::text;
use vstd::prelude::*;
use vstd::string::*;

verus! {

/// A step of a path as it is written.
pub open spec fn step_text(step: Step) -> Seq<char> {
    match step {
        Step::Root => "/"@,
        Step::Here => "."@,
        Step::Up => ".."@,
        Step::Name(name) => name,
    }
}

/// Steps with a slash between them.
pub open spec fn steps_text(steps: Seq<Step>) -> Seq<char> {
    text::joined(steps.map_values(|s: Step| step_text(s)), "/"@)
}

/// The steps of a path from one on, with a slash between them.
fn slashed(parts: &Vec<Component>, from: usize) -> (r: String)
    requires
        from <= parts@.len(),
    ensures
        r@ == steps_text(path::steps(parts@).subrange(from as int, parts@.len() as int)),
{
    let n: usize = parts.len();
    let mut out: Vec<String> = Vec::new();
    let ghost all = path::steps(parts@).subrange(from as int, n as int).map_values(
        |s: Step| step_text(s),
    );
    let mut i: usize = from;
    while i < n
        invariant
            n == parts.len(),
            from <= i <= n,
            all == path::steps(parts@).subrange(from as int, n as int).map_values(
                |s: Step| step_text(s),
            ),
            out@.len() == i - from,
            forall|k: int| 0 <= k < out@.len() ==> (#[trigger] out@[k])@ == all[k],
        decreases n - i,
    {
        let part = match &parts[i] {
            Component::Root => "/".to_owned(),
            Component::Here => ".".to_owned(),
            Component::Up => "..".to_owned(),
            Component::Name(name) => name.clone(),
        };
        proof {
            assert(all[i - from] == step_text(parts@[i as int].step()));
        }
        out.push(part);
        i = i + 1;
    }
    proof {
        assert(text::texts(out@) =~= all);
    }
    text::join(&out, "/")
}

/// The steps under which a digest lists a file: one that stays where it is leads nowhere.
pub open spec fn key_steps(steps: Seq<Step>) -> Seq<Step> {
    if steps.len() > 0 && steps[0] is Here {
        steps.subrange(1, steps.len() as int)
    } else {
        steps
    }
}

/// The text under which a digest lists a file.
pub open spec fn key_text(path: Seq<char>) -> Seq<char> {
    steps_text(key_steps(path_steps(path)))
}

/// The steps of a path from one on, as a digest lists them.
fn slashed_key(parts: &Vec<Component>, from: usize) -> (r: String)
    requires
        from <= parts@.len(),
    ensures
        r@ == steps_text(
            key_steps(path::steps(parts@).subrange(from as int, parts@.len() as int)),
        ),
{
    let ghost rest = path::steps(parts@).subrange(from as int, parts@.len() as int);
    if from < parts.len() {
        proof {
            assert(rest[0] == parts@[from as int].step());
        }
        match &parts[from] {
            Component::Here => {
                proof {
                    assert(path::steps(parts@).subrange(from + 1, parts@.len() as int)
                        =~= rest.subrange(1, rest.len() as int));
                }
                return slashed(parts, from + 1);
            },
            _ => {},
        }
    }
    slashed(parts, from)
}

/// Renders a path with `/` separators, matching the digest's keys.
pub fn slash_path(path: &str) -> (r: String)
    ensures
        r@ == key_text(path@),
{
    let parts = path::components(path);
    proof {
        assert(path::steps(parts@).subrange(0, parts@.len() as int) =~= path::steps(parts@));
    }
    slashed_key(&parts, 0)
}

/// Confirms that the bytes of a plugin's entry are the ones that were verified, not whatever
/// is on disk now.
pub fn check_entry(manifest: &Manifest, digest: Option<&DirectoryDigest>, source: &[u8]) -> (r:
    Result<(), FailureReason>)
    ensures
        resolve::reason_of(r) == match digest {
            None => None,
            Some(digest) => {
                let relative = key_text(manifest.entry@);
                if hash_at(digest.covered(), relative) == Some(sha256_of(source@)) {
                    None
                } else {
                    Some(Why::DigestMismatch(relative))
                }
            },
        },
{
    match digest {
        None => Ok(()),
        Some(digest) => {
            let relative = slash_path(manifest.entry.as_str());
            if digest.matches(relative.as_str(), source) {
                Ok(())
            } else {
                Err(FailureReason::DigestMismatch(relative))
            }
        },
    }
}

/// The path of a file under a directory, relative to it, where it lies under it.
pub open spec fn relative_to(dir: Seq<char>, file: Seq<char>) -> Option<Seq<char>> {
    let base = path_steps(dir);
    let steps = path_steps(file);
    if base.len() <= steps.len() && steps.subrange(0, base.len() as int) == base {
        Some(steps_text(key_steps(steps.subrange(base.len() as int, steps.len() as int))))
    } else {
        None
    }
}

fn same_step(a: &Component, b: &Component) -> (r: bool)
    ensures
        r == (a.step() == b.step()),
{
    match (a, b) {
        (Component::Root, Component::Root) => true,
        (Component::Here, Component::Here) => true,
        (Component::Up, Component::Up) => true,
        (Component::Name(x), Component::Name(y)) => *x == *y,
        _ => false,
    }
}

/// The path of a file under a directory, relative to it, where it lies under it.
pub fn strip_dir(dir: &str, file: &str) -> (r: Option<String>)
    ensures
        text::opt(r) == relative_to(dir@, file@),
{
    let base = path::components(dir);
    let parts = path::components(file);
    let ghost bs = path_steps(dir@);
    let ghost fs = path_steps(file@);
    let n: usize = base.len();
    if n > parts.len() {
        return None;
    }
    let mut i: usize = 0;
    while i < n
        invariant
            n == base.len(),
            n <= parts.len(),
            i <= n,
            path::steps(base@) == bs,
            path::steps(parts@) == fs,
            bs == path_steps(dir@),
            fs == path_steps(file@),
            forall|k: int| 0 <= k < i ==> #[trigger] bs[k] == fs[k],
        decreases n - i,
    {
        proof {
            assert(bs[i as int] == base@[i as int].step());
            assert(fs[i as int] == parts@[i as int].step());
        }
        if !same_step(&base[i], &parts[i]) {
            proof {
                assert(fs.subrange(0, bs.len() as int)[i as int] != bs[i as int]);
            }
            return None;
        }
        i = i + 1;
    }
    proof {
        assert(fs.subrange(0, bs.len() as int) =~= bs);
    }
    Some(slashed_key(&parts, n))
}

/// The message for a file that is not what was verified.
pub open spec fn changed_text(relative: Seq<char>) -> Seq<char> {
    "`"@ + relative + "` changed between verification and loading"@
}

/// What is wrong with the bytes of a module, if anything: inside a verified plugin they must
/// be those that were verified.
pub open spec fn module_fault(
    digest: Option<DirectoryDigest>,
    dir: Seq<char>,
    file: Seq<char>,
    source: Seq<u8>,
) -> Option<Seq<char>> {
    match (digest, relative_to(dir, file)) {
        (Some(digest), Some(relative)) => if hash_at(digest.covered(), relative) is Some && hash_at(
            digest.covered(),
            relative,
        ) != Some(sha256_of(source)) {
            Some(changed_text(relative))
        } else {
            None
        },
        _ => None,
    }
}

/// Confirms that a module inside a verified plugin is what was verified.
pub fn check_module(digest: Option<&DirectoryDigest>, dir: &str, file: &str, source: &[u8]) -> (r:
    Result<(), String>)
    ensures
        crate::manifest::fault(r) == module_fault(
            crate::trust::owned_digest(digest),
            dir@,
            file@,
            source@,
        ),
{
    match digest {
        None => Ok(()),
        Some(digest) => match strip_dir(dir, file) {
            None => Ok(()),
            Some(relative) => {
                if digest.covers(relative.as_str()) && !digest.matches(relative.as_str(), source) {
                    let mut out = "`".to_owned();
                    out.append(relative.as_str());
                    out.append("` changed between verification and loading");
                    Err(out)
                } else {
                    Ok(())
                }
            },
        },
    }
}

/// The file that a search template stands for, for a module.
pub open spec fn candidate(template: Seq<char>, name: Seq<char>) -> Seq<char> {
    text::replaced(template, '?', text::replaced(name, '.', "/"@))
}

/// The files that the first `n` templates stand for, for a module.
pub open spec fn candidates_upto(templates: Seq<Seq<char>>, name: Seq<char>, n: int) -> Seq<
    Seq<char>,
>
    decreases n,
{
    if n <= 0 {
        Seq::empty()
    } else if templates[n - 1].len() == 0 {
        candidates_upto(templates, name, n - 1)
    } else {
        candidates_upto(templates, name, n - 1).push(candidate(templates[n - 1], name))
    }
}

/// The files to look for a module in, in the order of the search path.
pub fn module_candidates(search: &str, name: &str) -> (r: Vec<String>)
    ensures
        text::texts(r@) == candidates_upto(
            text::pieces(search@, ';'),
            name@,
            text::pieces(search@, ';').len() as int,
        ),
{
    let templates = text::split(search, ';');
    let relative = text::replace(name, '.', "/");
    let ghost all = text::pieces(search@, ';');
    let n: usize = templates.len();
    let mut out: Vec<String> = Vec::new();
    let mut i: usize = 0;
    proof {
        assert(text::texts(out@) =~= candidates_upto(all, name@, 0));
    }
    while i < n
        invariant
            n == templates.len(),
            i <= n,
            all == text::texts(templates@),
            relative@ == text::replaced(name@, '.', "/"@),
            text::texts(out@) == candidates_upto(all, name@, i as int),
        decreases n - i,
    {
        let template = &templates[i];
        let ghost had = text::texts(out@);
        proof {
            assert(all[i as int] == template@);
        }
        if !template.as_str().is_empty() {
            out.push(text::replace(template.as_str(), '?', relative.as_str()));
            proof {
                assert(text::texts(out@) =~= had.push(candidate(template@, name@)));
            }
        }
        i = i + 1;
    }
    out
}

/// The search path with one more entry in front, unless it is there or is nothing.
pub open spec fn in_front(current: Seq<char>, addition: Seq<char>) -> Option<Seq<char>> {
    if addition.len() == 0 || text::occurs(current, addition) {
        None
    } else {
        Some(addition + ";"@ + current)
    }
}

/// The search path with one more entry in front, if that changes it.
pub fn prepend_path(current: &str, addition: &str) -> (r: Option<String>)
    ensures
        text::opt(r) == in_front(current@, addition@),
{
    if addition.is_empty() || text::contains(current, addition) {
        None
    } else {
        let mut out = addition.to_owned();
        out.append(";");
        out.append(current);
        Some(out)
    }
}

/// The templates under which a plugin finds its own files.
pub open spec fn own_templates(dir: Seq<char>) -> Seq<char> {
    dir + "/?.lua;"@ + dir + "/?/init.lua"@
}

/// The search path that lets a plugin find its own files, if that changes it.
pub fn extend_package_path(current: &str, dir: &str) -> (r: Option<String>)
    ensures
        text::opt(r) == in_front(current@, own_templates(dir@)),
{
    let mut addition = dir.to_owned();
    addition.append("/?.lua;");
    addition.append(dir);
    addition.append("/?/init.lua");
    proof {
        reveal_strlit("/?.lua;");
        assert(own_templates(dir@).len() > 0);
    }
    prepend_path(current, addition.as_str())
}

/// What one provisioning of rocks did.
#[derive(Debug, PartialEq, Eq)]
pub struct InstallReport {
    /// Rocks fetched into the tree.
    pub installed: Vec<String>,
    /// Rocks already present at an acceptable version.
    pub satisfied: Vec<String>,
    /// Rocks that could not be installed, with the reason.
    pub failures: Vec<(String, String)>,
}

impl InstallReport {
    /// A report of nothing.
    pub fn new() -> (r: InstallReport)
        ensures
            r.installed@.len() == 0,
            r.satisfied@.len() == 0,
            r.failures@.len() == 0,
    {
        InstallReport { installed: Vec::new(), satisfied: Vec::new(), failures: Vec::new() }
    }
}

/// What becomes of a rock that is wanted.
#[derive(Debug, PartialEq, Eq)]
pub enum RockAction {
    /// Its requirement could not be read.
    Fail(String),
    /// It is there.
    Keep,
    /// It has to be fetched.
    Fetch,
}

/// What becomes of a rock, given how its requirement was read and whether what is installed
/// satisfies it.
pub fn rock_action(read: Result<(), String>, satisfied: bool) -> (r: RockAction)
    ensures
        match read {
            Err(message) => r == RockAction::Fail(message),
            Ok(_) => r == if satisfied {
                RockAction::Keep
            } else {
                RockAction::Fetch
            },
        },
{
    match read {
        Err(message) => RockAction::Fail(message),
        Ok(_) => if satisfied {
            RockAction::Keep
        } else {
            RockAction::Fetch
        },
    }
}

/// What a report says, apart from how it is stored.
pub struct InstalledModel {
    pub installed: Seq<Seq<char>>,
    pub satisfied: Seq<Seq<char>>,
    pub failures: Seq<(Seq<char>, Seq<char>)>,
}

impl View for InstallReport {
    type V = InstalledModel;

    open spec fn view(&self) -> InstalledModel {
        InstalledModel {
            installed: text::texts(self.installed@),
            satisfied: text::texts(self.satisfied@),
            failures: self.failures@.map_values(|f: (String, String)| (f.0@, f.1@)),
        }
    }
}

/// What came of a rock that is wanted.
pub enum RockFate {
    Kept,
    Fetched,
    Failed(Seq<char>),
}

/// Whether a rock comes to this: one whose requirement cannot be read fails, one that is there
/// is kept, and any other is fetched, which may fail.
pub open spec fn rock_fated<
    Q: Fn(&str, &str) -> RockAction,
    N: Fn(&str, &str) -> Option<String>,
>(query: Q, fetch: N, rock: (String, String), fate: RockFate) -> bool {
    exists|name: &str, required: &str, action: RockAction|
        {
            &&& name@ == rock.0@
            &&& required@ == rock.1@
            &&& #[trigger] call_ensures(query, (name, required), action)
            &&& match action {
                RockAction::Fail(message) => fate == RockFate::Failed(message@),
                RockAction::Keep => fate == RockFate::Kept,
                RockAction::Fetch => exists|failed: Option<String>| #[trigger]
                    call_ensures(fetch, (name, required), failed) && fate == match failed {
                        Some(message) => RockFate::Failed(message@),
                        None => RockFate::Fetched,
                    },
            }
        }
}

/// What is reported of the first `n` rocks, given what came of each.
pub open spec fn rocks_report(wanted: Seq<(String, String)>, fates: Seq<RockFate>, n: int) ->
    InstalledModel
    decreases n,
{
    if n <= 0 {
        InstalledModel {
            installed: Seq::empty(),
            satisfied: Seq::empty(),
            failures: Seq::empty(),
        }
    } else {
        let done = rocks_report(wanted, fates, n - 1);
        let name = wanted[n - 1].0@;
        match fates[n - 1] {
            RockFate::Kept => InstalledModel { satisfied: done.satisfied.push(name), ..done },
            RockFate::Fetched => InstalledModel { installed: done.installed.push(name), ..done },
            RockFate::Failed(message) => InstalledModel {
                failures: done.failures.push((name, message)),
                ..done
            },
        }
    }
}

proof fn rocks_prefix(
    wanted: Seq<(String, String)>,
    a: Seq<RockFate>,
    b: Seq<RockFate>,
    n: int,
)
    requires
        n <= a.len(),
        n <= b.len(),
        forall|i: int| 0 <= i < n ==> a[i] == b[i],
    ensures
        rocks_report(wanted, a, n) == rocks_report(wanted, b, n),
    decreases n,
{
    if n > 0 {
        rocks_prefix(wanted, a, b, n - 1);
    }
}

/// Provisions every rock that is wanted, in the order of their names. One rock that fails does
/// not keep the others from being fetched.
pub fn install_rocks<Q: Fn(&str, &str) -> RockAction, N: Fn(&str, &str) -> Option<String>>(
    wanted: &NameMap<String>,
    query: &Q,
    fetch: &N,
) -> (r: InstallReport)
    requires
        forall|name: &str, required: &str| call_requires(*query, (name, required)),
        forall|name: &str, required: &str| call_requires(*fetch, (name, required)),
    ensures
        exists|fates: Seq<RockFate>|
            {
                &&& fates.len() == wanted@.len()
                &&& forall|i: int|
                    0 <= i < fates.len() ==> rock_fated(
                        *query,
                        *fetch,
                        wanted@[i],
                        #[trigger] fates[i],
                    )
                &&& r@ == #[trigger] rocks_report(wanted@, fates, fates.len() as int)
            },
{
    let n: usize = wanted.entries.len();
    let mut report = InstallReport::new();
    let ghost mut fates = Seq::<RockFate>::empty();
    let mut i: usize = 0;
    proof {
        assert(report@.installed =~= Seq::empty());
        assert(report@.satisfied =~= Seq::empty());
        assert(report@.failures =~= Seq::empty());
    }
    while i < n
        invariant
            i <= n,
            n == wanted@.len(),
            forall|name: &str, required: &str| call_requires(*query, (name, required)),
            forall|name: &str, required: &str| call_requires(*fetch, (name, required)),
            fates.len() == i,
            forall|k: int|
                0 <= k < i ==> rock_fated(*query, *fetch, wanted@[k], #[trigger] fates[k]),
            report@ == rocks_report(wanted@, fates, i as int),
        decreases n - i,
    {
        let entry = &wanted.entries[i];
        let name = entry.0.as_str();
        let required = entry.1.as_str();
        let ghost then = report@;
        let ghost had = fates;
        let action = query(name, required);
        let ghost told = action;
        proof {
            assert(call_ensures(*query, (name, required), told));
        }
        let ghost fate;
        match action {
            RockAction::Fail(message) => {
                proof {
                    fate = RockFate::Failed(message@);
                }
                report.failures.push((entry.0.clone(), message));
                proof {
                    assert(report@.failures =~= then.failures.push((entry.0@, message@)));
                }
            },
            RockAction::Keep => {
                proof {
                    fate = RockFate::Kept;
                }
                report.satisfied.push(entry.0.clone());
                proof {
                    assert(report@.satisfied =~= then.satisfied.push(entry.0@));
                }
            },
            RockAction::Fetch => {
                let failed = fetch(name, required);
                let ghost came = failed;
                proof {
                    assert(call_ensures(*fetch, (name, required), came));
                }
                match failed {
                    Some(message) => {
                        proof {
                            fate = RockFate::Failed(message@);
                        }
                        report.failures.push((entry.0.clone(), message));
                        proof {
                            assert(report@.failures =~= then.failures.push(
                                (entry.0@, message@),
                            ));
                        }
                    },
                    None => {
                        proof {
                            fate = RockFate::Fetched;
                        }
                        report.installed.push(entry.0.clone());
                        proof {
                            assert(report@.installed =~= then.installed.push(entry.0@));
                        }
                    },
                }
            },
        }
        proof {
            assert(rock_fated(*query, *fetch, wanted@[i as int], fate));
            fates = had.push(fate);
            assert forall|k: int| 0 <= k < i + 1 implies rock_fated(
                *query,
                *fetch,
                wanted@[k],
                #[trigger] fates[k],
            ) by {
                if k < i {
                    assert(fates[k] == had[k]);
                }
            }
            rocks_prefix(wanted@, had, fates, i as int);
        }
        i = i + 1;
    }
    report
}

/// The requirement that the last of the first `n` manifests that declares a rock has for it.
pub open spec fn wanted_upto(ms: Seq<Manifest>, rock: Seq<char>, n: int) -> Option<Seq<char>>
    decreases n,
{
    if n <= 0 {
        None
    } else {
        match ms[n - 1].rocks.at(rock) {
            Some(requirement) => Some(requirement@),
            None => wanted_upto(ms, rock, n - 1),
        }
    }
}

/// Every rock that some manifest declares, with the requirement of the last that does.
pub fn wanted_rocks(manifests: &Vec<Manifest>) -> (r: NameMap<String>)
    requires
        forall|i: int| 0 <= i < manifests@.len() ==> (#[trigger] manifests@[i]).wf(),
    ensures
        r.wf(),
        forall|rock: Seq<char>|
            text::opt(#[trigger] r.at(rock)) == wanted_upto(
                manifests@,
                rock,
                manifests@.len() as int,
            ),
{
    let n: usize = manifests.len();
    let mut out: NameMap<String> = NameMap::new();
    let mut i: usize = 0;
    while i < n
        invariant
            n == manifests.len(),
            i <= n,
            forall|k: int| 0 <= k < manifests@.len() ==> (#[trigger] manifests@[k]).wf(),
            out.wf(),
            forall|rock: Seq<char>|
                text::opt(#[trigger] out.at(rock)) == wanted_upto(manifests@, rock, i as int),
        decreases n - i,
    {
        let rocks = &manifests[i].rocks;
        let ghost before = out;
        let m: usize = rocks.entries.len();
        let mut k: usize = 0;
        proof {
            assert(manifests@[i as int].wf());
        }
        while k < m
            invariant
                m == rocks.entries.len(),
                k <= m,
                rocks.wf(),
                out.wf(),
                forall|rock: Seq<char>|
                    text::opt(#[trigger] out.at(rock)) == if declared_before(*rocks, rock, k as int) {
                        text::opt(rocks.at(rock))
                    } else {
                        text::opt(before.at(rock))
                    },
            decreases m - k,
        {
            let entry = &rocks.entries[k];
            let ghost had = out;
            out.insert(entry.0.clone(), entry.1.clone());
            proof {
                rocks.at_place(k as int);
                assert forall|rock: Seq<char>| text::opt(#[trigger] out.at(rock))
                    == if declared_before(*rocks, rock, k + 1) {
                    text::opt(rocks.at(rock))
                } else {
                    text::opt(before.at(rock))
                } by {
                    assert(text::opt(had.at(rock)) == if declared_before(*rocks, rock, k as int) {
                        text::opt(rocks.at(rock))
                    } else {
                        text::opt(before.at(rock))
                    });
                    if rock == entry.0@ {
                        assert(rocks@[k as int].0@ == rock);
                        assert(declared_before(*rocks, rock, k + 1));
                    } else if declared_before(*rocks, rock, k + 1) {
                        let j = choose|j: int| 0 <= j < k + 1 && (#[trigger] rocks@[j]).0@ == rock;
                        assert(j < k);
                        assert(declared_before(*rocks, rock, k as int));
                    }
                }
            }
            k = k + 1;
        }
        proof {
            assert forall|rock: Seq<char>| text::opt(#[trigger] out.at(rock)) == wanted_upto(
                manifests@,
                rock,
                i + 1,
            ) by {
                assert(text::opt(before.at(rock)) == wanted_upto(manifests@, rock, i as int));
                if rocks.has(rock) {
                    assert(rocks@[rocks.place(rock)].0@ == rock);
                    assert(declared_before(*rocks, rock, m as int));
                }
                if declared_before(*rocks, rock, m as int) {
                    let j = choose|j: int| 0 <= j < m && (#[trigger] rocks@[j]).0@ == rock;
                    assert(rocks.entries@[j].0@ == rock);
                }
            }
        }
        i = i + 1;
    }
    out
}

/// Whether one of the first `n` entries is a rock's.
spec fn declared_before(rocks: NameMap<String>, rock: Seq<char>, n: int) -> bool {
    exists|j: int| 0 <= j < n && (#[trigger] rocks@[j]).0@ == rock
}

/// A module that a digest covers is loaded only with the contents that were hashed.
pub proof fn covered_module_is_verified(
    digest: DirectoryDigest,
    dir: Seq<char>,
    file: Seq<char>,
    source: Seq<u8>,
)
    requires
        module_fault(Some(digest), dir, file, source) is None,
        relative_to(dir, file) is Some,
        hash_at(digest.covered(), relative_to(dir, file)->0) is Some,
    ensures
        hash_at(digest.covered(), relative_to(dir, file)->0) == Some(sha256_of(source)),
{
}

proof fn stays_at_the_start(parts: Seq<Seq<char>>, n: int)
    requires
        0 <= n <= parts.len(),
    ensures
        forall|i: int|
            0 < i < path::piece_steps(parts, n).len() ==> !(#[trigger] path::piece_steps(
                parts,
                n,
            )[i] is Here),
    decreases n,
{
    if n > 0 {
        stays_at_the_start(parts, n - 1);
        if n == 1 {
            assert(path::piece_steps(parts, 0).len() == 0);
        }
    }
}

/// An entry that passes is looked up by names alone, as a digest lists files: however its path
/// is written, no step of the key stays where it is or goes up.
pub proof fn entry_key_is_plain(plugin_type: PluginType, entry: Seq<char>)
    requires
        entry_fault(plugin_type, entry) is None,
    ensures
        forall|i: int|
            0 <= i < key_steps(path_steps(entry)).len() ==> #[trigger] key_steps(
                path_steps(entry),
            )[i] is Name,
{
    let steps = path_steps(entry);
    let parts = text::pieces(entry, '/');
    valid_entry_is_confined(plugin_type, entry);
    stays_at_the_start(parts, parts.len() as int);
    assert forall|i: int| 0 <= i < key_steps(steps).len() implies #[trigger] key_steps(steps)[i]
        is Name by {
        if steps[0] is Here {
            assert(key_steps(steps)[i] == steps[i + 1]);
        }
        assert(steps[i] is Name || steps[i] is Here);
    }
}

} // verus!
