//! What holds of what a host reports, how it is configured from data, and where modules and rocks
//! come from.

use crate::bridge::lua_args;
use crate::error::Error;
use crate::failure::{FailureReason, LoadFailure, RegistryError};
use crate::handle::{complaint, Lookup};
use crate::host::{told_failures, Failure, Stanchion};
use crate::host_laws::a_name_is_listed_once;
use crate::hosting::{foreign_error, host_reloaded, lua_report, other_report, LuaRegistry, ReportModel};
use crate::json::{
    answered_upto, code_of, config_of, strings_upto, text_at, Json, Number, STANCHION_OK,
};
use crate::loader::Built;
use crate::lua::{lua_of, LuaModel};
use crate::manifest::Manifest;
use crate::modules::{
    candidate, candidates_upto, in_front, module_fault, relative_to, rocks_report, wanted_upto,
    RockFate,
};
use crate::names::NameMap;
use crate::registry;
use crate::registry::{without_first, Group};
use crate::signature::{hash_at, sha256_of, DirectoryDigest, Signer};
use crate::text;
use crate::trust::Listing;
use crate::value::ValueModel;
use vstd::prelude::*;
use vstd::string::*;

verus! {

/// A module is refused exactly when the digest covers its file and its bytes are not those covered.
pub proof fn a_changed_module_is_refused(
    digest: Option<DirectoryDigest>,
    dir: Seq<char>,
    file: Seq<char>,
    source: Seq<u8>,
)
    ensures
        module_fault(digest, dir, file, source) is Some <==> {
            &&& digest matches Some(shown)
            &&& relative_to(dir, file) matches Some(path)
            &&& hash_at(shown.covered(), path) matches Some(hash)
            &&& hash != sha256_of(source)
        },
{
}

/// A module is looked for where each template that is not empty says, in their order.
pub proof fn a_module_is_looked_for_everywhere(
    templates: Seq<Seq<char>>,
    name: Seq<char>,
    n: int,
)
    requires
        0 <= n <= templates.len(),
    ensures
        candidates_upto(templates, name, n) == templates.take(n).filter(
            |template: Seq<char>| template.len() > 0,
        ).map_values(|template: Seq<char>| candidate(template, name)),
    decreases n,
{
    reveal(Seq::filter);
    let keep = |template: Seq<char>| template.len() > 0;
    let turn = |template: Seq<char>| candidate(template, name);
    if n > 0 {
        a_module_is_looked_for_everywhere(templates, name, n - 1);
        assert(templates.take(n).drop_last() =~= templates.take(n - 1));
        assert(templates.take(n).last() == templates[n - 1]);
        let less = templates.take(n - 1).filter(keep);
        assert(less.push(templates[n - 1]).map_values(turn) =~= less.map_values(turn).push(
            candidate(templates[n - 1], name),
        ));
    } else {
        assert(templates.take(0) =~= Seq::<Seq<char>>::empty());
        assert(Seq::<Seq<char>>::empty().filter(keep) =~= Seq::<Seq<char>>::empty());
        assert(Seq::<Seq<char>>::empty().map_values(turn) =~= Seq::<Seq<char>>::empty());
    }
}

/// A search path gets an addition in front of it, once: where it holds it already, or there is
/// nothing to add, it stays.
pub proof fn an_addition_goes_in_front(current: Seq<char>, addition: Seq<char>)
    ensures
        in_front(current, addition) is None <==> addition.len() == 0 || text::occurs(
            current,
            addition,
        ),
        in_front(current, addition) matches Some(path) ==> {
            &&& path == addition + seq![';'] + current
            &&& in_front(path, addition) is None
        },
{
    reveal_strlit(";");
    assert(";"@ =~= seq![';']);
    match in_front(current, addition) {
        Some(path) => {
            assert(path.subrange(0int, 0int + addition.len()) =~= addition);
        },
        None => {},
    }
}

/// Of a rock that several plugins want, what is asked for is what the last of them says.
pub proof fn a_rock_is_wanted_as_last_said(ms: Seq<Manifest>, rock: Seq<char>, n: int)
    requires
        0 <= n <= ms.len(),
    ensures
        match wanted_upto(ms, rock, n) {
            Some(requirement) => exists|i: int|
                {
                    &&& 0 <= i < n
                    &&& (#[trigger] ms[i]).rocks.at(rock) matches Some(said)
                    &&& said@ == requirement
                    &&& forall|j: int| i < j < n ==> (#[trigger] ms[j]).rocks.at(rock) is None
                },
            None => forall|i: int| 0 <= i < n ==> (#[trigger] ms[i]).rocks.at(rock) is None,
        },
    decreases n,
{
    if n > 0 {
        a_rock_is_wanted_as_last_said(ms, rock, n - 1);
        if ms[n - 1].rocks.at(rock) is None && wanted_upto(ms, rock, n) is Some {
            let requirement = wanted_upto(ms, rock, n)->0;
            let i = choose|i: int|
                {
                    &&& 0 <= i < n - 1
                    &&& (#[trigger] ms[i]).rocks.at(rock) matches Some(said)
                    &&& said@ == requirement
                    &&& forall|j: int| i < j < n - 1 ==> (#[trigger] ms[j]).rocks.at(rock) is None
                };
            assert(ms[i].rocks.at(rock) is Some);
            assert forall|j: int| i < j < n implies (#[trigger] ms[j]).rocks.at(rock) is None by {
                if j == n - 1 {
                    assert(ms[j].rocks.at(rock) is None);
                }
            }
        }
    }
}

proof fn pushed<A>(list: Seq<A>, last: A)
    ensures
        list.push(last).contains(last),
        forall|item: A| #[trigger] list.contains(item) ==> list.push(last).contains(item),
{
    let longer = list.push(last);
    assert(longer[list.len() as int] == last);
    assert forall|item: A| #[trigger] list.contains(item) implies longer.contains(item) by {
        let i = choose|i: int| 0 <= i < list.len() && list[i] == item;
        assert(longer[i] == item);
    }
}

/// Every rock that is wanted is reported once, under what became of it: there already, fetched, or
/// failed with why.
pub proof fn every_rock_is_reported(
    wanted: Seq<(String, String)>,
    fates: Seq<RockFate>,
    n: int,
)
    requires
        0 <= n <= wanted.len(),
        n <= fates.len(),
    ensures
        ({
            let report = rocks_report(wanted, fates, n);
            &&& report.installed.len() + report.satisfied.len() + report.failures.len() == n
            &&& forall|i: int|
                0 <= i < n ==> match #[trigger] fates[i] {
                    RockFate::Kept => report.satisfied.contains(wanted[i].0@),
                    RockFate::Fetched => report.installed.contains(wanted[i].0@),
                    RockFate::Failed(message) => report.failures.contains((wanted[i].0@, message)),
                }
        }),
    decreases n,
{
    if n > 0 {
        every_rock_is_reported(wanted, fates, n - 1);
        let done = rocks_report(wanted, fates, n - 1);
        let name = wanted[n - 1].0@;
        match fates[n - 1] {
            RockFate::Kept => pushed(done.satisfied, name),
            RockFate::Fetched => pushed(done.installed, name),
            RockFate::Failed(message) => pushed(done.failures, (name, message)),
        }
    }
}

/// Every plugin of another runtime is reported: those that loaded by name, those that did not by
/// their failure, behind what was reported before.
pub proof fn every_result_is_reported(
    start: ReportModel,
    manifests: Seq<Manifest>,
    results: Seq<Result<(), Failure>>,
    n: int,
)
    requires
        0 <= n <= manifests.len(),
        n <= results.len(),
    ensures
        ({
            let report = other_report(start, manifests, results, n);
            &&& report.loaded.len() + report.failures.len() == start.loaded.len()
                + start.failures.len() + n
            &&& forall|i: int|
                0 <= i < n ==> match #[trigger] results[i] {
                    Ok(_) => report.loaded.contains(manifests[i].name@),
                    Err(failure) => report.failures.contains(failure@),
                }
            &&& forall|name: Seq<char>| #[trigger]
                start.loaded.contains(name) ==> report.loaded.contains(name)
            &&& forall|failure: crate::host::FailureModel| #[trigger]
                start.failures.contains(failure) ==> report.failures.contains(failure)
        }),
    decreases n,
{
    if n > 0 {
        every_result_is_reported(start, manifests, results, n - 1);
        let done = other_report(start, manifests, results, n - 1);
        match results[n - 1] {
            Ok(_) => pushed(done.loaded, manifests[n - 1].name@),
            Err(failure) => pushed(done.failures, failure@),
        }
    }
}

/// Where the Lua plugins cannot be loaded at all, none is reported as loaded and each is reported
/// as failed, with why; where they can, what is reported is what came of it.
pub proof fn a_failed_load_reports_every_plugin(
    manifests: Seq<Manifest>,
    unreadable: Seq<LoadFailure>,
    r: Result<registry::LoadReport, RegistryError>,
)
    ensures
        r matches Ok(report) ==> lua_report(manifests, unreadable, r).loaded == text::texts(
            report.loaded@,
        ) && lua_report(manifests, unreadable, r).failures == told_failures(report.failures@),
        r matches Err(error) ==> {
            let told = lua_report(manifests, unreadable, r);
            &&& told.loaded.len() == 0
            &&& told.failures.len() == unreadable.len() + manifests.len()
            &&& forall|i: int|
                0 <= i < manifests.len() ==> told.failures.contains(
                    ((#[trigger] manifests[i]).name@, error.message()),
                )
            &&& forall|i: int|
                0 <= i < unreadable.len() ==> told.failures.contains(
                    ((#[trigger] unreadable[i]).name@, unreadable[i].reason@.message()),
                )
        },
{
    match r {
        Ok(_) => {},
        Err(error) => {
            let told = lua_report(manifests, unreadable, r).failures;
            assert forall|i: int| 0 <= i < manifests.len() implies told.contains(
                ((#[trigger] manifests[i]).name@, error.message()),
            ) by {
                assert(told[unreadable.len() + i] == (manifests[i].name@, error.message()));
            }
            assert forall|i: int| 0 <= i < unreadable.len() implies told.contains(
                ((#[trigger] unreadable[i]).name@, unreadable[i].reason@.message()),
            ) by {
                assert(told[i] == (unreadable[i].name@, unreadable[i].reason@.message()));
            }
        },
    }
}

/// A registry's error keeps its sense for a host: what is not known, what a plugin did wrong, what
/// Lua said, and everything that has to do with files.
pub proof fn errors_keep_their_sense(error: RegistryError, r: Error)
    requires
        foreign_error(error, r),
    ensures
        error is UnknownPlugin <==> r is UnknownPlugin,
        error is Reload <==> r is Plugin,
        error is Lua <==> r is Lua,
        error is Io || error is Rocks <==> r is Io,
        error matches RegistryError::Reload(failure) ==> (r matches Error::Plugin { plugin, reason }
            && plugin@ == failure@.name && reason@ == failure@.reason.message()),
{
}

/// A reload touches the runtime that the plugin is of, and no other; where the plugin is of none,
/// it is not known and nothing changes.
pub proof fn a_reload_touches_one_runtime<
    E,
    X,
    R: Fn(&str) -> Result<Manifest, FailureReason>,
    L: Fn(&Manifest) -> Listing,
    B: Fn(&LuaRegistry<E>, &Manifest, Group, &Signer, &Option<DirectoryDigest>) -> Result<
        Built<crate::backend::BoxedInstance, X>,
        FailureReason,
    >,
    P: Fn(Option<&E>, X) -> Result<E, FailureReason>,
>(
    read: R,
    files: L,
    build: B,
    publish: P,
    before: Stanchion<E>,
    plugin: Seq<char>,
    r: Result<(), Error>,
    after: Stanchion<E>,
)
    requires
        before.registry.wf(),
        host_reloaded(read, files, build, publish, before, plugin, r, after),
    ensures
        before.registry.loaded().contains(plugin) ==> after.instances == before.instances,
        !before.registry.loaded().contains(plugin) ==> after.registry == before.registry,
        r is Err && before.registry.loaded().contains(plugin) ==> after.registry == before.registry,
        r is Err ==> after.instances@ == before.instances@,
        !before.all_names().contains(plugin) ==> (r matches Err(Error::UnknownPlugin(name)) && name@
            == plugin && after == before),
{
    let first = before.registry.loaded();
    let second = crate::host::entry_names(before.instances@);
    if first.contains(plugin) {
        let i = choose|i: int| 0 <= i < first.len() && first[i] == plugin;
        assert(before.all_names()[i] == plugin);
        let came = choose|came: Result<(), RegistryError>|
            {
                &&& #[trigger] crate::reload::reload_outcome(
                    read,
                    files,
                    build,
                    publish,
                    before.registry,
                    plugin,
                    came,
                    after.registry,
                )
                &&& match came {
                    Ok(_) => r is Ok,
                    Err(error) => r matches Err(said) && foreign_error(error, said),
                }
                &&& after.instances == before.instances
                &&& after.backends == before.backends
                &&& after.default_root == before.default_root
                &&& after.offered == before.offered
                &&& after.id == before.id
            };
        crate::reload_laws::a_reload_changes_one_plugin(
            read,
            files,
            build,
            publish,
            before.registry,
            plugin,
            came,
            after.registry,
        );
    } else if second.contains(plugin) {
        let i = choose|i: int| 0 <= i < second.len() && second[i] == plugin;
        assert(before.all_names()[first.len() + i] == plugin);
    }
}

/// Taking a name off a list takes it off once and leaves the others in their order.
pub proof fn one_name_is_taken_off(list: Seq<Seq<char>>, name: Seq<char>, other: Seq<char>)
    requires
        list.no_duplicates(),
    ensures
        without_first(list, name).contains(other) <==> list.contains(other) && other != name,
        list.contains(name) ==> without_first(list, name).len() == list.len() - 1,
        !list.contains(name) ==> without_first(list, name) == list,
{
    if list.contains(name) {
        let at = choose|i: int| 0 <= i < list.len() && list[i] == name;
        assert forall|j: int| 0 <= j < at implies #[trigger] list[j] != name by {}
        registry::first_place(list, name, at);
        let less = list.remove(at);
        if less.contains(other) {
            let i = choose|i: int| 0 <= i < less.len() && less[i] == other;
            let k = if i < at {
                i
            } else {
                i + 1
            };
            assert(list[k] == other);
        }
        if list.contains(other) && other != name {
            let k = choose|k: int| 0 <= k < list.len() && list[k] == other;
            if k < at {
                assert(less[k] == other);
            } else {
                assert(less[k - 1] == other);
            }
        }
    }
}

proof fn texts_among(items: Seq<Json>, n: int, name: Seq<char>)
    requires
        0 <= n <= items.len(),
    ensures
        strings_upto(items, n).contains(name) <==> exists|i: int|
            0 <= i < n && ((#[trigger] items[i]) matches Json::Text(s) && s@ == name),
    decreases n,
{
    if n > 0 {
        texts_among(items, n - 1, name);
        let less = strings_upto(items, n - 1);
        match items[n - 1] {
            Json::Text(s) => {
                pushed(less, s@);
                if less.push(s@).contains(name) && s@ != name {
                    let k = choose|k: int| 0 <= k < less.len() + 1 && less.push(s@)[k] == name;
                    assert(less[k] == name);
                }
            },
            _ => {},
        }
    }
}

proof fn names_among(items: Seq<Json>, n: int, name: Seq<char>)
    requires
        0 <= n <= items.len(),
    ensures
        answered_upto(items, n).contains(name) <==> exists|i: int|
            0 <= i < n && ((#[trigger] items[i]) matches Json::Object(map) && text_at(map, "name"@)
                == Some(name)),
    decreases n,
{
    if n > 0 {
        names_among(items, n - 1, name);
        let less = answered_upto(items, n - 1);
        match items[n - 1] {
            Json::Object(map) => {
                match text_at(map, "name"@) {
                    Some(named) => a_name_is_listed_once(less, named, name),
                    None => {},
                }
            },
            _ => {},
        }
    }
}

/// Whether an object has an array under a key with a text in it.
pub open spec fn lists_text(map: NameMap<Json>, key: Seq<char>, name: Seq<char>) -> bool {
    &&& map.at(key) matches Some(Json::Array(items))
    &&& exists|i: int|
        0 <= i < items@.len() && ((#[trigger] items@[i]) matches Json::Text(s) && s@ == name)
}

/// Whether an object has an array under a key with an object in it of a name.
pub open spec fn lists_named(map: NameMap<Json>, key: Seq<char>, name: Seq<char>) -> bool {
    &&& map.at(key) matches Some(Json::Array(items))
    &&& exists|i: int|
        0 <= i < items@.len() && ((#[trigger] items@[i]) matches Json::Object(inner) && (inner.at(
            "name"@,
        ) matches Some(Json::Text(s)) && s@ == name))
}

/// A configuration read from data says what the data says: what it grants and answers is what is
/// listed, nothing is shared and no signature is required unless it says so, and a limit is the
/// one given, none where nought is given, and the default where nothing is.
pub proof fn a_configuration_says_what_the_data_says(map: NameMap<Json>, name: Seq<char>)
    ensures
        config_of(map).required <==> map.at("require_signatures"@) == Some(Json::Bool(true)),
        config_of(map).shared <==> map.at("shared"@) == Some(Json::Bool(true)),
        config_of(map).allow.contains(name) <==> lists_text(map, "allow"@, name),
        config_of(map).callbacks.contains(name) <==> lists_named(map, "capabilities"@, name),
        config_of(map).libs is Some <==> map.at("libs"@) matches Some(Json::Array(_)),
        config_of(map).libs matches Some(libs) ==> (libs.contains(name) <==> lists_text(
            map,
            "libs"@,
            name,
        )),
        config_of(map).deny is Some <==> map.at("deny"@) matches Some(Json::Array(_)),
        config_of(map).deny matches Some(deny) ==> (deny.contains(name) <==> lists_text(
            map,
            "deny"@,
            name,
        )),
        config_of(map).plugins == Some(name) <==> (map.at("plugins"@) matches Some(Json::Text(s))
            && s@ == name),
        config_of(map).catch_rust_panics is None,
        map.at("instruction_limit"@) is None ==> config_of(map).instruction_limit == Some(
            50_000_000u64,
        ),
        map.at("memory_limit"@) is None ==> config_of(map).memory_limit == Some(67_108_864usize),
        map.at("instruction_limit"@) matches Some(Json::Number(Number::Int(n))) ==> (n > 0
            ==> config_of(map).instruction_limit == Some(n as u64)),
        map.at("instruction_limit"@) == Some(Json::Number(Number::Int(0))) ==> config_of(
            map,
        ).instruction_limit is None,
        map.at("memory_limit"@) == Some(Json::Number(Number::Int(0))) ==> config_of(map).memory_limit
            is None,
{
    match map.at("allow"@) {
        Some(Json::Array(items)) => texts_among(items@, items@.len() as int, name),
        _ => {},
    }
    match map.at("libs"@) {
        Some(Json::Array(items)) => texts_among(items@, items@.len() as int, name),
        _ => {},
    }
    match map.at("deny"@) {
        Some(Json::Array(items)) => texts_among(items@, items@.len() as int, name),
        _ => {},
    }
    match map.at("capabilities"@) {
        Some(Json::Array(items)) => {
            names_among(items@, items@.len() as int, name);
            if lists_named(map, "capabilities"@, name) {
                let i = choose|i: int|
                    0 <= i < items@.len() && ((#[trigger] items@[i]) matches Json::Object(inner) && (
                    inner.at("name"@) matches Some(Json::Text(s)) && s@ == name));
                assert(items@[i] matches Json::Object(inner) && text_at(inner, "name"@) == Some(
                    name,
                ));
            }
            if answered_upto(items@, items@.len() as int).contains(name) {
                let i = choose|i: int|
                    0 <= i < items@.len() && ((#[trigger] items@[i]) matches Json::Object(inner)
                        && text_at(inner, "name"@) == Some(name));
                assert(items@[i] matches Json::Object(inner) && (inner.at("name"@) matches Some(
                    Json::Text(s),
                ) && s@ == name));
            }
        },
        _ => {},
    }
}

/// Errors are told apart by their codes, none of which means success; only an error of a runtime
/// goes under that of Lua.
pub proof fn codes_tell_errors_apart(a: Error, b: Error)
    ensures
        code_of(a) != STANCHION_OK,
        code_of(a) == code_of(b) <==> {
            ||| a is UnknownPlugin && b is UnknownPlugin
            ||| a is Plugin && b is Plugin
            ||| (a is Lua || a is Runtime) && (b is Lua || b is Runtime)
            ||| a is Io && b is Io
            ||| a is Config && b is Config
            ||| a is Capability && b is Capability
            ||| a is Reentrant && b is Reentrant
            ||| a is Wasm && b is Wasm
        },
{
}

/// What should be a function is complained of unless it is one.
pub proof fn only_functions_pass(name: Seq<char>, found: Lookup)
    ensures
        complaint(name, found) is None <==> found is Function,
{
}

/// Whether a value goes to Lua as another, by itself.
pub open spec fn goes_as(value: ValueModel, lua: LuaModel) -> bool {
    exists|held: Option<u64>| (#[trigger] lua_of(value, held)).0 == Some(lua)
}

/// Arguments go to Lua one for one, in their order, each as it goes by itself.
pub proof fn arguments_go_one_for_one(args: Seq<ValueModel>, had: Option<u64>)
    ensures
        lua_args(args, had).0 matches Some(list) ==> {
            &&& list.len() == args.len()
            &&& forall|i: int|
                0 <= i < args.len() ==> goes_as(args[i], #[trigger] list[i])
        },
        lua_args(args, had).0 is None ==> exists|i: int, held: Option<u64>|
            0 <= i < args.len() && (#[trigger] lua_of(args[i], held)).0 is None,
    decreases args.len(),
{
    if args.len() > 0 {
        let less = args.drop_last();
        arguments_go_one_for_one(less, had);
        let made = lua_args(less, had);
        match made.0 {
            None => {
                let (i, held) = choose|i: int, held: Option<u64>|
                    0 <= i < less.len() && (#[trigger] lua_of(less[i], held)).0 is None;
                assert(lua_of(args[i], held).0 is None);
            },
            Some(list) => {
                let last = lua_of(args.last(), made.1);
                assert(args[args.len() - 1] == args.last());
                match last.0 {
                    Some(lua) => {
                        let all = list.push(lua);
                        assert forall|i: int| 0 <= i < args.len() implies goes_as(
                            args[i],
                            #[trigger] all[i],
                        ) by {
                            if i < less.len() {
                                assert(goes_as(less[i], list[i]));
                            } else {
                                assert(lua_of(args[i], made.1).0 == Some(all[i]));
                            }
                        }
                    },
                    None => {
                        assert(lua_of(args[args.len() - 1], made.1).0 is None);
                    },
                }
            },
        }
    }
}

} // verus!
