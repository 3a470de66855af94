//! What holds of a host: what its configuration lets plugins reach, and what it loads.

use crate::audit::{signer_seen, PluginAudit};
use crate::backend::{handled, may_build};
use crate::config::{configured, configured_libs, default_config, libs_upto, SandboxConfig};
use crate::error::Error;
use crate::failure::FailureReason;
use crate::host::{
    audited, chosen_root, entry_info, entry_names, first_fault, lua_info, of_type_upto,
    reload_fault, with_name, AuditEntry, EntryModel, Failure, InstanceEntry, Outcome, ReloadFault,
    Stanchion,
};
use crate::loader::ruled_by_files;
use crate::manifest::{entry_fault, Manifest, PluginType};
use crate::package::stays_below;
use crate::package_laws::pieces_step;
use crate::path::{absolute, path_steps, piece_steps, Step};
use crate::registry::{first_of, Plugin, Registry};
use crate::sandbox::{is_lib, restricted_model, with_lib, Libs};
use crate::signature::{signer_text, DirectoryDigest, Signer, SignerModel};
use crate::text;
use crate::trust::{ruled_on, Listing};
use crate::value::Value;
use vstd::prelude::*;
use vstd::string::*;

verus! {

/// Whether a library of a name is among those opened.
pub open spec fn is_open(libs: Libs, name: Seq<char>) -> bool {
    ||| libs.string && name == "string"@
    ||| libs.table && name == "table"@
    ||| libs.math && name == "math"@
    ||| libs.coroutine && name == "coroutine"@
    ||| libs.package && name == "package"@
    ||| libs.io && name == "io"@
    ||| libs.os && name == "os"@
    ||| libs.debug && name == "debug"@
}

proof fn library_names_differ()
    ensures
        "string"@.len() == 6,
        "table"@.len() == 5,
        "math"@.len() == 4,
        "coroutine"@.len() == 9,
        "package"@.len() == 7,
        "io"@.len() == 2,
        "os"@.len() == 2,
        "debug"@.len() == 5,
        "table"@[0] == 't',
        "debug"@[0] == 'd',
        "io"@[0] == 'i',
        "os"@[0] == 'o',
{
    reveal_strlit("string");
    reveal_strlit("table");
    reveal_strlit("math");
    reveal_strlit("coroutine");
    reveal_strlit("package");
    reveal_strlit("io");
    reveal_strlit("os");
    reveal_strlit("debug");
}

/// A list of libraries opens those it names and no other, and is refused where it names one that
/// there is not: the first such name is told.
pub proof fn a_list_opens_what_it_names(list: Seq<Seq<char>>, n: int, name: Seq<char>)
    requires
        0 <= n <= list.len(),
    ensures
        match libs_upto(list, n) {
            Ok(libs) => {
                &&& is_open(libs, name) <==> exists|i: int| 0 <= i < n && #[trigger] list[i] == name
                &&& forall|i: int| 0 <= i < n ==> is_lib(#[trigger] list[i])
            },
            Err(unknown) => exists|i: int|
                {
                    &&& 0 <= i < n
                    &&& #[trigger] list[i] == unknown
                    &&& !is_lib(unknown)
                    &&& forall|j: int| 0 <= j < i ==> is_lib(#[trigger] list[j])
                },
        },
    decreases n,
{
    library_names_differ();
    if n > 0 {
        a_list_opens_what_it_names(list, n - 1, name);
        if libs_upto(list, n) is Ok {
            let libs = libs_upto(list, n - 1)->Ok_0;
            assert(is_open(with_lib(libs, list[n - 1]), name) <==> is_open(libs, name) || list[n - 1]
                == name);
        }
    }
}

/// A configuration says what a sandbox is: what it sets is set, and what it leaves out is as it is
/// by default, with panics not swallowed, no way to the files or the system, and no way to load
/// native code.
pub proof fn a_sandbox_is_as_configured(config: SandboxConfig, libs: Libs)
    ensures
        configured(config, libs).libs == libs,
        configured(config, libs).memory == config.memory_limit,
        configured(config, libs).instructions == config.instruction_limit,
        config.catch_rust_panics matches Some(on) ==> configured(config, libs).catch_panics == on,
        config.catch_rust_panics is None ==> configured(config, libs).catch_panics,
        config.deny matches Some(list) ==> configured(config, libs).denied == text::texts(list@),
        config.deny is None ==> configured(config, libs).denied.contains("dofile"@) && configured(
            config,
            libs,
        ).denied.contains("loadfile"@) && configured(config, libs).denied.contains(
            "package.loadlib"@,
        ) && configured(config, libs).denied.len() == 3,
        config.libs is None ==> (configured_libs(config) matches Ok(open) && !open.io && !open.os
            && !open.debug && open.string && open.table && open.math && open.coroutine
            && open.package),
        config.libs matches Some(list) ==> configured_libs(config) == libs_upto(
            text::texts(list@),
            list@.len() as int,
        ),
{
    let denied = restricted_model().denied;
    assert(denied[0] == "dofile"@ && denied[1] == "loadfile"@ && denied[2] == "package.loadlib"@);
}

/// An entry is accepted exactly when it names a file of the plugin's own kind below its directory:
/// not empty, not from the root, never stepping up, and ending as the kind of plugin does.
pub proof fn an_entry_is_a_file_of_the_plugin(plugin_type: PluginType, entry: Seq<char>)
    ensures
        entry_fault(plugin_type, entry) is None <==> {
            &&& entry.len() > 0
            &&& entry[0] != '/'
            &&& forall|i: int|
                0 <= i < text::pieces(entry, '/').len() ==> #[trigger] text::pieces(entry, '/')[i]
                    != ".."@
            &&& plugin_type is Lua ==> text::ends(entry, ".lua"@)
            &&& plugin_type is Wasm ==> text::ends(entry, ".wasm"@)
        },
{
    let parts = text::pieces(entry, '/');
    let rest = piece_steps(parts, parts.len() as int);
    pieces_step(parts, parts.len() as int);
    if !absolute(entry) {
        let steps = path_steps(entry);
        assert(steps == rest);
        if steps.contains(Step::Up) {
            let i = choose|i: int| 0 <= i < steps.len() && steps[i] == Step::Up;
            assert(!stays_below(steps));
        }
        if !stays_below(steps) {
            let i = choose|i: int|
                0 <= i < steps.len() && (#[trigger] steps[i] == Step::Up || steps[i] == Step::Root);
            assert(!(steps[i] is Root));
            assert(steps[i] == Step::Up);
        }
    }
}

/// A root that is given is taken before one that is configured, and without either there is none.
pub proof fn a_given_root_comes_first(given: Option<Seq<char>>, configured: Option<Seq<char>>)
    ensures
        chosen_root(given, configured) is Err <==> given is None && configured is None,
        given matches Some(root) ==> chosen_root(given, configured) == Ok::<Seq<char>, Seq<char>>(
            root,
        ),
        given is None ==> (configured matches Some(root) ==> chosen_root(given, configured) == Ok::<
            Seq<char>,
            Seq<char>,
        >(root)),
{
}

/// What is told of a plugin is what is known of it.
pub proof fn plugins_are_told_as_they_are<I, E>(plugin: Plugin<I, E>, entry: EntryModel)
    ensures
        lua_info(plugin).name == plugin.manifest.name@,
        lua_info(plugin).version == match plugin.manifest.version {
            Some(version) => Some(version@),
            None => None,
        },
        lua_info(plugin).granted == text::texts(plugin.granted@),
        lua_info(plugin).signer == signer_text(plugin.signer@),
        lua_info(plugin).runtime == "lua"@,
        entry_info(entry).name == entry.name,
        entry_info(entry).granted == entry.granted,
        entry_info(entry).signer == entry.signer,
        entry_info(entry).runtime == entry.runtime,
        entry_info(entry).version is None,
{
}

/// A batch is split by type without losing the order: the Lua plugins are those of type Lua, and
/// the others are the rest.
pub proof fn a_batch_is_split_by_type(ms: Seq<Manifest>, lua: bool, n: int)
    requires
        0 <= n <= ms.len(),
    ensures
        of_type_upto(ms, lua, n) == ms.take(n).filter(
            |manifest: Manifest| (manifest.plugin_type is Lua) == lua,
        ),
    decreases n,
{
    reveal(Seq::filter);
    let keep = |manifest: Manifest| (manifest.plugin_type is Lua) == lua;
    if n > 0 {
        a_batch_is_split_by_type(ms, lua, n - 1);
        assert(ms.take(n).drop_last() =~= ms.take(n - 1));
        assert(ms.take(n).last() == ms[n - 1]);
    } else {
        assert(ms.take(0) =~= Seq::<Manifest>::empty());
    }
}

/// A list with a name has the name, and otherwise what it had.
pub proof fn a_name_is_listed_once(list: Seq<Seq<char>>, name: Seq<char>, other: Seq<char>)
    ensures
        with_name(list, name).contains(other) <==> list.contains(other) || other == name,
        list.no_duplicates() ==> with_name(list, name).no_duplicates(),
{
    let longer = list.push(name);
    if !list.contains(name) {
        assert(longer[list.len() as int] == name);
        if list.contains(other) {
            let i = choose|i: int| 0 <= i < list.len() && list[i] == other;
            assert(longer[i] == other);
        }
        if longer.contains(other) && other != name {
            let i = choose|i: int| 0 <= i < longer.len() && longer[i] == other;
            assert(list[i] == other);
        }
        if list.no_duplicates() {
            assert forall|i: int, j: int|
                0 <= i < longer.len() && 0 <= j < longer.len() && i != j implies longer[i]
                != longer[j] by {
                if i < list.len() {
                    assert(list.contains(list[i]));
                }
                if j < list.len() {
                    assert(list.contains(list[j]));
                }
            }
        }
    }
}

/// An outcome tells the value or the error, never both and never neither.
pub proof fn an_outcome_tells_one_thing(outcome: Outcome, result: Result<Value, Error>)
    requires
        outcome.tells(result),
    ensures
        outcome.value is Some <==> outcome.error is None,
        result matches Ok(value) ==> outcome.value == Some(value),
        result matches Err(error) ==> (outcome.error matches Some(said) && said@ == error.message()),
{
}

/// A reload may go on exactly when the plugin is loaded, its manifest could be read, is still its
/// own and names a proper entry; what is told otherwise is what is wrong.
pub proof fn a_reload_may_go_on(
    loaded: Seq<Seq<char>>,
    plugin: Seq<char>,
    read: Result<Manifest, String>,
)
    ensures
        reload_fault(loaded, plugin, read) is None <==> {
            &&& loaded.contains(plugin)
            &&& read matches Ok(manifest)
            &&& manifest.name@ == plugin
            &&& entry_fault(manifest.plugin_type, manifest.entry@) is None
        },
        match reload_fault(loaded, plugin, read) {
            None => true,
            Some(ReloadFault::Unknown(said)) => said == plugin && !loaded.contains(plugin),
            Some(ReloadFault::Io(_)) => loaded.contains(plugin) && read is Err,
            Some(ReloadFault::Config(_)) => loaded.contains(plugin) && read is Ok,
        },
{
}

proof fn first_is_found(list: Seq<Seq<char>>, name: Seq<char>, from: int)
    requires
        0 <= from <= list.len(),
    ensures
        from <= first_of(list, name, from) <= list.len(),
        first_of(list, name, from) < list.len() ==> list[first_of(list, name, from)] == name,
        first_of(list, name, from) == list.len() ==> forall|i: int|
            from <= i < list.len() ==> #[trigger] list[i] != name,
    decreases list.len() - from,
{
    if from < list.len() && list[from] != name {
        first_is_found(list, name, from + 1);
    }
}

/// Whether an entry of a host is that of a plugin that was admitted with a signer and a digest.
pub open spec fn is_entry_of(
    entry: InstanceEntry,
    manifest: Manifest,
    signer: Signer,
    digest: Option<DirectoryDigest>,
) -> bool {
    &&& entry.name@ == manifest.name@
    &&& entry.dir@ == manifest.dir@
    &&& entry.signer@ == signer_text(signer@)
    &&& match digest {
        Some(digest) => entry.digest matches Some(said) && said@ == digest.fingerprint(),
        None => entry.digest is None,
    }
    &&& match manifest.budget {
        Some(budget) => entry.budget == Some(budget.max_instructions),
        None => entry.budget is None && entry.call_budget is None,
    }
}

/// Whether a plugin of another runtime was admitted on its files and built, and an entry is its.
pub open spec fn is_admitted_and_built<E>(
    host: Stanchion<E>,
    manifest: Manifest,
    listing: Listing,
    entry: InstanceEntry,
) -> bool {
    &&& handled(host.backends@, manifest.plugin_type, host.backends@.len() as int)
    &&& entry_fault(manifest.plugin_type, manifest.entry@) is None
    &&& may_build(host.backends@, manifest, Ok(entry.instance))
    &&& exists|signer: Signer, digest: Option<DirectoryDigest>|
        #[trigger] is_entry_of(entry, manifest, signer, digest) && ruled_on(
            host.registry,
            manifest,
            listing,
            Ok((signer, digest)),
        )
}

/// A load of a plugin of another runtime adds that plugin or nothing: where it succeeds one entry
/// is added, behind the others, that was admitted on its files and built; where it fails nothing
/// changes, and the failure names the plugin.
pub proof fn a_load_adds_one_entry_or_none<E>(
    before: Stanchion<E>,
    manifest: Manifest,
    listing: Listing,
    r: Result<(), Failure>,
    after: Stanchion<E>,
)
    requires
        before.load_comes_to(manifest, listing, r, after),
    ensures
        after.registry == before.registry,
        r is Ok ==> {
            &&& after.instances@.len() == before.instances@.len() + 1
            &&& after.instances@.drop_last() == before.instances@
            &&& is_admitted_and_built(before, manifest, listing, after.instances@.last())
        },
        r matches Err(failure) ==> after.instances@ == before.instances@ && failure.plugin@
            == manifest.name@,
{
    if r is Ok {
        let admission = choose|
            admission: Result<(Signer, Option<DirectoryDigest>), FailureReason>,
        |
            #[trigger]
            ruled_on(before.registry, manifest, listing, admission) && before.loads_as(
                manifest,
                admission,
                r,
                after.instances@,
            );
        let (signer, digest) = admission->Ok_0;
        let entry = after.instances@.last();
        assert(is_entry_of(entry, manifest, signer, digest));
    }
}

/// A reload of a plugin of another runtime replaces that plugin or nothing.
pub proof fn a_reload_replaces_one_entry_or_none<E>(
    before: Stanchion<E>,
    plugin: Seq<char>,
    read: Result<Manifest, String>,
    listing: Listing,
    r: Result<(), Error>,
    after: Stanchion<E>,
)
    requires
        before.reload_comes_to(plugin, read, listing, r, after),
    ensures
        after.registry == before.registry,
        r is Err ==> after.instances@ == before.instances@,
        !entry_names(before.instances@).contains(plugin) ==> (r matches Err(
            Error::UnknownPlugin(said),
        ) && said@ == plugin),
        r is Ok ==> exists|at: int|
            {
                &&& 0 <= at < before.instances@.len()
                &&& (#[trigger] before.instances@[at]).name@ == plugin
                &&& after.instances@ == before.instances@.update(at, after.instances@[at])
                &&& read matches Ok(manifest)
                &&& manifest.name@ == plugin
                &&& is_admitted_and_built(before, manifest, listing, after.instances@[at])
            },
{
    if r is Ok {
        let names = entry_names(before.instances@);
        let manifest = read->Ok_0;
        let admission = choose|
            admission: Result<(Signer, Option<DirectoryDigest>), FailureReason>,
        |
            #[trigger]
            ruled_on(before.registry, manifest, listing, admission) && before.reloads_as(
                plugin,
                manifest,
                admission,
                r,
                after.instances@,
            );
        let (signer, digest) = admission->Ok_0;
        let at = first_of(names, plugin, 0);
        first_is_found(names, plugin, 0);
        assert(names[at] == plugin);
        assert(before.instances@[at].name@ == plugin);
        assert(is_entry_of(after.instances@[at], manifest, signer, digest));
    }
}

/// A plugin is tried exactly when some backend takes its type and its entry is proper.
pub proof fn a_plugin_needs_a_backend<E>(host: Stanchion<E>, manifest: Manifest)
    ensures
        first_fault(host.backends@, manifest) is None <==> handled(
            host.backends@,
            manifest.plugin_type,
            host.backends@.len() as int,
        ) && entry_fault(manifest.plugin_type, manifest.entry@) is None,
{
}

/// What an audit shows of a plugin is what the plugin declares: each capability it asks for, by
/// name, and who signed it.
pub proof fn an_audit_shows_what_is_declared(entry: AuditEntry, plugin: PluginAudit)
    requires
        audited(entry, plugin),
    ensures
        entry.plugin@ == plugin.name@,
        entry.signer@ == signer_text(plugin.signer@),
        entry.capabilities@.len() == plugin.requests@.len(),
        forall|i: int|
            0 <= i < plugin.requests@.len() ==> (#[trigger] entry.capabilities@[i])@
                == plugin.requests@[i].name@,
{
    let shown = text::texts(entry.capabilities@);
    assert(shown.len() == plugin.requests@.len());
    assert forall|i: int| 0 <= i < plugin.requests@.len() implies (#[trigger] entry.capabilities@[i])@
        == plugin.requests@[i].name@ by {
        assert(shown[i] == plugin.requests@[i].name@);
    }
}

/// By default nothing is granted and nothing is shared, and what a plugin may spend is bounded.
pub proof fn nothing_is_granted_by_default()
    ensures
        default_config().allow.len() == 0,
        default_config().callbacks.len() == 0,
        !default_config().shared,
        default_config().memory_limit is Some,
        default_config().instruction_limit is Some,
        default_config().libs is None,
        default_config().deny is None,
{
}

/// An audit shows a signer only where the plugin would be admitted as signed so.
pub proof fn an_audit_shows_only_who_would_be_admitted<I, E, L: Fn(&Manifest) -> Listing>(
    registry: Registry<I, E>,
    files: L,
    manifest: Manifest,
    signer: SignerModel,
)
    requires
        signer_seen(registry, files, manifest, signer),
        signer is Some,
    ensures
        exists|listing: Listing, shown: Signer, digest: Option<DirectoryDigest>|
            {
                &&& call_ensures(files, (&manifest,), listing)
                &&& #[trigger] ruled_on(registry, manifest, listing, Ok((shown, digest)))
                &&& shown@ == signer
            },
{
    let admission = choose|admission: Result<(Signer, Option<DirectoryDigest>), FailureReason>|
        #[trigger]
        ruled_by_files(registry, files, manifest, admission) && signer == match admission {
            Ok((signer, _)) => signer@,
            Err(_) => None,
        };
    let listing = choose|listing: Listing| #[trigger]
        call_ensures(files, (&manifest,), listing) && ruled_on(
            registry,
            manifest,
            listing,
            admission,
        );
    let (shown, digest) = admission->Ok_0;
    assert(ruled_on(registry, manifest, listing, Ok((shown, digest))));
}

} // verus!
