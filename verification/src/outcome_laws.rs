//! What holds of calls and their allowances, of archives that are written, of times and numbers
//! that are read, and of what is shown to other programs.

use crate::archive::{archived, first_path_fault, packed_files, path_fault, plain_files};
use crate::backend::{BoxedInstance, PluginInstance};
use crate::budget::{Budget, Counts};
use crate::clock::{parsed_time, second_of};
use crate::document::{documented, number_model, parsed_json};
use crate::error::Error;
use crate::failure::payload_text;
use crate::host::{
    heard_from, ran_whole, refreshed, told_of, FailureModel, InfoModel, InstanceEntry, Outcome,
};
use crate::index::{staleness, staleness_read, Freshness};
use crate::install::{last_dot, stem};
use crate::json::{
    code_of, code_text, failure_json, info_json, json_of, log_text, options_config, outcome_json,
    report_model, texts_json, HostOptions, Json, JsonModel, Number,
    Passed,
};
use crate::manifest::{entry_fault, entry_path_fault, PluginType};
use crate::modules::{rock_fated, RockAction, RockFate};
use crate::package::PackageFault;
use crate::registry::Plugin;
use crate::reload::{called_whole, handed_over};
use crate::text;
use crate::value::Value;
use vstd::prelude::*;
use vstd::string::*;

verus! {

/// A call starts with its plugin's whole allowance: what was spent of it is nought, and what others
/// spent is as it was. A plugin without one changes no count.
pub proof fn a_call_starts_with_its_whole_allowance(
    budget: Option<Budget>,
    before: Counts,
    handed: Counts,
    other: int,
)
    requires
        handed_over(budget, before, handed),
    ensures
        budget matches Some(own) ==> own.spent(handed) == 0,
        handed@.len() == before@.len(),
        (budget matches Some(own) ==> own.charges() != other) && 0 <= other < before@.len()
            ==> handed@[other] == before@[other],
{
}

/// A call is made on the plugin's own instance, with its whole allowance, and what it comes to is
/// what the call gave.
pub proof fn a_call_is_made_whole<I, E, T, F: Fn(&I, Counts) -> (T, Counts)>(
    call: F,
    plugin: Plugin<I, E>,
    before: Counts,
    result: T,
    after: Counts,
)
    requires
        called_whole(call, plugin, before, result, after),
    ensures
        exists|handed: Counts| #[trigger]
            call_ensures(call, (&plugin.instance, handed), (result, after)) && (plugin.budget
                matches Some(own) ==> own.spent(handed) == 0),
{
    let handed = choose|handed: Counts|
        handed_over(plugin.budget, before, handed) && #[trigger] call_ensures(
            call,
            (&plugin.instance, handed),
            (result, after),
        );
    assert(call_ensures(call, (&plugin.instance, handed), (result, after)));
}

/// A host's call is made on the plugin's own instance, with the method and the arguments that were
/// given and its whole allowance; what is told of it is what it gave.
pub proof fn a_hosts_call_is_made_as_asked<
    E,
    W: Fn(&BoxedInstance, &str, &[Value], Counts) -> (Result<Value, Error>, Counts),
>(
    run: W,
    plugin: Plugin<BoxedInstance, E>,
    method: &str,
    args: &[Value],
    before: Counts,
    outcome: Outcome,
    after: Counts,
)
    requires
        told_of(run, plugin, method, args, before, outcome, after),
    ensures
        exists|said: Result<Value, Error>, handed: Counts|
            {
                &&& #[trigger] call_ensures(
                    run,
                    (&plugin.instance, method, args, handed),
                    (said, after),
                )
                &&& plugin.budget matches Some(own) ==> own.spent(handed) == 0
                &&& match said {
                    Ok(value) => outcome.value == Some(value) && outcome.error is None,
                    Err(error) => outcome.value is None && (outcome.error matches Some(message)
                        && message@ == error.message()),
                }
            },
{
    let said = choose|said: Result<Value, Error>| #[trigger]
        ran_whole(run, plugin, method, args, before, said, after) && outcome.tells(said);
    let handed = choose|handed: Counts|
        handed_over(plugin.budget, before, handed) && #[trigger] call_ensures(
            run,
            (&plugin.instance, method, args, handed),
            (said, after),
        );
    assert(call_ensures(run, (&plugin.instance, method, args, handed), (said, after)));
}

/// A call of a plugin of another runtime refills that plugin's allowance and touches no other
/// plugin, nor anything else of it.
pub proof fn a_refill_touches_one_entry(
    was: Seq<InstanceEntry>,
    now: Seq<InstanceEntry>,
    at: int,
    i: int,
)
    requires
        refreshed(was, now, at),
        0 <= at < was.len(),
        0 <= i < was.len(),
    ensures
        now.len() == was.len(),
        i != at ==> now[i] == was[i],
        now[at].name == was[at].name,
        now[at].instance == was[at].instance,
        now[at].granted == was[at].granted,
        now[at].signer == was[at].signer,
        now[at].digest == was[at].digest,
        now[at].budget == was[at].budget,
        was[at].call_budget matches Some(budget) ==> budget.spent(now[at].counts) == 0,
{
}

/// What a plugin of another runtime answers is told as it is.
pub proof fn answers_are_told_as_they_are(
    instance: &BoxedInstance,
    method: &str,
    args: &[Value],
    outcome: Outcome,
)
    requires
        heard_from(instance, method, args, outcome),
    ensures
        exists|result: Result<Value, Error>| #[trigger]
            instance.answers(method, args, result) && match result {
                Ok(value) => outcome.value == Some(value) && outcome.error is None,
                Err(error) => outcome.value is None && (outcome.error matches Some(message)
                    && message@ == error.message()),
            },
{
}

/// An archive holds each file under its path and with its contents, in their order, and all with
/// one mode, owner and time: it depends on nothing else.
pub proof fn an_archive_holds_the_files(files: Seq<(String, Vec<u8>)>, i: int, j: int)
    requires
        0 <= i < files.len(),
        0 <= j < files.len(),
    ensures
        packed_files(files).len() == files.len(),
        packed_files(files)[i].path == files[i].0@,
        packed_files(files)[i].contents == files[i].1@,
        packed_files(files)[i].mode == packed_files(files)[j].mode,
        packed_files(files)[i].owner == packed_files(files)[j].owner,
        packed_files(files)[i].time == packed_files(files)[j].time,
        plain_files(packed_files(files))[i] == (files[i].0@, files[i].1@),
        plain_files(packed_files(files)).len() == files.len(),
{
}

/// One directory makes one archive, whoever packs it and whenever.
pub proof fn one_directory_makes_one_archive(
    one: Seq<(String, Vec<u8>)>,
    other: Seq<(String, Vec<u8>)>,
)
    requires
        one.len() == other.len(),
        forall|i: int|
            0 <= i < one.len() ==> (#[trigger] one[i]).0@ == other[i].0@ && one[i].1@ == other[i].1@,
    ensures
        archived(one) == archived(other),
{
    assert(packed_files(one) =~= packed_files(other));
    faults_agree(one, other, 0);
}

proof fn faults_agree(one: Seq<(String, Vec<u8>)>, other: Seq<(String, Vec<u8>)>, from: int)
    requires
        0 <= from <= one.len(),
        one.len() == other.len(),
        forall|i: int|
            0 <= i < one.len() ==> (#[trigger] one[i]).0@ == other[i].0@ && one[i].1@ == other[i].1@,
    ensures
        first_path_fault(one, from) == first_path_fault(other, from),
    decreases one.len() - from,
{
    if from < one.len() {
        faults_agree(one, other, from + 1);
        assert(one[from].0@ == other[from].0@);
    }
}

/// Nothing is archived where a path cannot be, and the first such path is told.
pub proof fn a_path_that_cannot_be_is_told(files: Seq<(String, Vec<u8>)>, i: int)
    requires
        0 <= i < files.len(),
        path_fault(files[i].0@) is Some,
    ensures
        archived(files) matches Err(PackageFault::Io(_)),
        (forall|k: int| 0 <= k < i ==> path_fault((#[trigger] files[k]).0@) is None) ==> archived(
            files,
        ) == Err::<Seq<u8>, PackageFault>(PackageFault::Io(path_fault(files[i].0@)->0)),
{
    fault_is_found(files, 0, i);
}

proof fn fault_is_found(files: Seq<(String, Vec<u8>)>, from: int, i: int)
    requires
        0 <= from <= i < files.len(),
        path_fault(files[i].0@) is Some,
    ensures
        first_path_fault(files, from) is Some,
        (forall|k: int| from <= k < i ==> path_fault((#[trigger] files[k]).0@) is None)
            ==> first_path_fault(files, from) == path_fault(files[i].0@),
    decreases i - from,
{
    if from < i {
        fault_is_found(files, from + 1, i);
        if forall|k: int| from <= k < i ==> path_fault((#[trigger] files[k]).0@) is None {
            assert(path_fault(files[from].0@) is None);
        }
    }
}

/// The second of a time is the one it falls in, whole seconds down, where there is one.
pub proof fn a_time_falls_in_its_second(nanos: i128)
    ensures
        i64::MIN * 1_000_000_000 <= nanos && nanos < (i64::MAX + 1) * 1_000_000_000 ==> second_of(
            nanos,
        ) * 1_000_000_000 <= nanos && nanos < (second_of(nanos) + 1) * 1_000_000_000,
        i64::MIN <= second_of(nanos) <= i64::MAX,
{
}

/// Reading a deadline first and judging it later comes to the same.
pub proof fn a_deadline_may_be_read_first(
    freshness: Freshness,
    expires: Option<Seq<char>>,
    what: Seq<char>,
    now: i128,
)
    ensures
        staleness(freshness, expires, what, now) == staleness_read(
            freshness,
            match expires {
                Some(written) => Some((written, parsed_time(written))),
                None => None,
            },
            what,
            now,
        ),
{
}

/// A number in a document is the whole number it is where it is one, and otherwise the double it
/// is nearest to.
pub proof fn numbers_are_read_as_they_are(
    signed: Option<i64>,
    unsigned: Option<u64>,
    bits: Option<u64>,
)
    ensures
        signed matches Some(value) ==> number_model(signed, unsigned, bits) == Number::Int(value),
        signed is None ==> (unsigned matches Some(value) ==> (number_model(signed, unsigned, bits)
            matches Number::Big { value: held, .. } && held == value)),
        signed is None && unsigned is None ==> (bits matches Some(held) ==> number_model(
            signed,
            unsigned,
            bits,
        ) == Number::Float(held)),
{
}

/// What another program passes is read as the document it is: nothing as null, and what is no text
/// or no document is refused.
pub proof fn what_is_passed_is_read(passed: Passed, r: Result<Json, String>)
    requires
        documented(passed, r),
    ensures
        passed is None ==> r == Ok::<Json, String>(Json::Null),
        passed matches Some(Err(_)) ==> r is Err,
        passed matches Some(Ok(text)) ==> (r is Ok <==> parsed_json(text@) is Ok)
            && (r matches Ok(json) ==> parsed_json(text@) == Ok::<
            JsonModel,
            Seq<char>,
        >(json.model())),
{
}

/// What a panic said is its literal, or else its text, or else that it said nothing.
pub proof fn a_panic_says_what_it_holds(literal: Option<Seq<char>>, owned: Option<Seq<char>>)
    ensures
        literal matches Some(said) ==> payload_text(literal, owned) == said,
        literal is None ==> (owned matches Some(said) ==> payload_text(literal, owned) == said),
{
}

/// An entry that may stand in a manifest has a path that may, and the path is judged alone.
pub proof fn an_entrys_path_is_judged_alone(plugin_type: PluginType, entry: Seq<char>)
    ensures
        entry_path_fault(entry) is Some ==> entry_fault(plugin_type, entry) == entry_path_fault(entry),
        entry_path_fault(entry) is None ==> (entry_fault(plugin_type, entry) is None <==> match plugin_type {
            PluginType::Lua => text::ends(entry, ".lua"@),
            PluginType::Wasm => text::ends(entry, ".wasm"@),
        }),
{
}

proof fn last_dot_is(name: Seq<char>, n: int)
    requires
        0 <= n <= name.len(),
    ensures
        -1 <= last_dot(name, n) < n,
        last_dot(name, n) >= 0 ==> name[last_dot(name, n)] == '.',
        forall|i: int| last_dot(name, n) < i < n ==> #[trigger] name[i] != '.',
    decreases n,
{
    if n > 0 && name[n - 1] != '.' {
        last_dot_is(name, n - 1);
    }
}

/// The stem of a name is the name up to its last dot, and the whole name where it has none or
/// begins with its only one.
pub proof fn a_stem_ends_at_the_last_dot(name: Seq<char>, at: int)
    requires
        0 <= at < name.len(),
        name[at] == '.',
        forall|i: int| at < i < name.len() ==> #[trigger] name[i] != '.',
    ensures
        at > 0 ==> stem(name) == name.subrange(0, at),
        at == 0 ==> stem(name) == name,
{
    last_dot_is(name, name.len() as int);
    let dot = last_dot(name, name.len() as int);
    if dot < at {
        assert(name[at] != '.');
    }
    if dot > at {
        assert(name[dot] != '.');
    }
}

/// A name without a dot is its own stem.
pub proof fn a_name_without_a_dot_is_its_stem(name: Seq<char>)
    requires
        !name.contains('.'),
    ensures
        stem(name) == name,
{
    last_dot_is(name, name.len() as int);
    let dot = last_dot(name, name.len() as int);
    if dot >= 0 {
        assert(name.contains(name[dot]));
    }
}

/// Whether a rock was fetched, or fetching it failed with what its fate tells.
pub open spec fn was_fetched<N: Fn(&str, &str) -> Option<String>>(
    fetch: N,
    name: &str,
    required: &str,
    fate: RockFate,
) -> bool {
    ||| fate is Fetched && call_ensures(fetch, (name, required), None::<String>)
    ||| exists|message: String|
        fate == RockFate::Failed(#[trigger] message@) && call_ensures(
            fetch,
            (name, required),
            Some(message),
        )
}

/// What becomes of a rock follows from what was found: one that is there is kept and never fetched,
/// one whose requirement cannot be read fails with why, and one that is fetched has been fetched or
/// fails with why.
pub proof fn a_rock_meets_its_fate<
    Q: Fn(&str, &str) -> RockAction,
    N: Fn(&str, &str) -> Option<String>,
>(query: Q, fetch: N, rock: (String, String), fate: RockFate)
    requires
        rock_fated(query, fetch, rock, fate),
    ensures
        exists|name: &str, required: &str, action: RockAction|
            {
                &&& name@ == rock.0@
                &&& required@ == rock.1@
                &&& #[trigger] call_ensures(query, (name, required), action)
                &&& action is Keep <==> fate is Kept
                &&& action matches RockAction::Fail(message) ==> fate == RockFate::Failed(message@)
                &&& action is Fetch ==> was_fetched(fetch, name, required, fate)
            },
{
    let (name, required, action) = choose|name: &str, required: &str, action: RockAction|
        {
            &&& name@ == rock.0@
            &&& required@ == rock.1@
            &&& #[trigger] call_ensures(query, (name, required), action)
            &&& match action {
                RockAction::Fail(message) => fate == RockFate::Failed(message@),
                RockAction::Keep => fate == RockFate::Kept,
                RockAction::Fetch => exists|failed: Option<String>| #[trigger]
                    call_ensures(fetch, (name, required), failed) && fate == match failed {
                        Some(message) => RockFate::Failed(message@),
                        None => RockFate::Fetched,
                    },
            }
        };
    if action is Fetch {
        let failed = choose|failed: Option<String>| #[trigger]
            call_ensures(fetch, (name, required), failed) && fate == match failed {
                Some(message) => RockFate::Failed(message@),
                None => RockFate::Fetched,
            };
        if failed is Some {
            assert(fate == RockFate::Failed(failed->0@));
        }
        assert(was_fetched(fetch, name, required, fate));
    }
    assert(call_ensures(query, (name, required), action));
}

/// What is set on a host goes into its configuration: nothing is granted that is not allowed,
/// nothing is shared and no signature is required unless it was said.
pub proof fn options_go_into_the_configuration(options: HostOptions)
    ensures
        options_config(options).required == options.require_signatures,
        options_config(options).shared == options.shared,
        options.allow is None ==> options_config(options).allow.len() == 0,
        options.allow matches Some(list) ==> options_config(options).allow == text::texts(list@),
        options_config(options).callbacks.len() == 0,
        options.instruction_limit is None ==> options_config(options).instruction_limit == Some(
            50_000_000u64,
        ),
        options.instruction_limit == Some(0u64) ==> options_config(options).instruction_limit is None,
        options.instruction_limit matches Some(n) ==> (n > 0 ==> options_config(
            options,
        ).instruction_limit == Some(n)),
        options.memory_limit is None ==> options_config(options).memory_limit == Some(
            67_108_864usize,
        ),
        options.memory_limit == Some(0u64) ==> options_config(options).memory_limit is None,
        options.libs matches Some(list) ==> options_config(options).libs == Some(text::texts(list@)),
        options.libs is None ==> options_config(options).libs is None,
        options.deny matches Some(list) ==> options_config(options).deny == Some(text::texts(list@)),
        options.deny is None ==> options_config(options).deny is None,
{
}

/// Whether an object has a value under a key.
pub open spec fn shows(json: JsonModel, key: Seq<char>, value: JsonModel) -> bool {
    json matches JsonModel::Object(entries) && entries.contains((key, value))
}

/// A report shows every plugin that loaded and every failure, each with its plugin and its reason.
pub proof fn a_report_shows_everything(
    loaded: Seq<Seq<char>>,
    failures: Seq<FailureModel>,
    failure: FailureModel,
)
    ensures
        shows(report_model(loaded, failures), "loaded"@, texts_json(loaded)),
        shows(
            report_model(loaded, failures),
            "failures"@,
            JsonModel::Array(Seq::new(failures.len(), |i: int| failure_json(failures[i]))),
        ),
        report_model(loaded, failures) matches JsonModel::Object(entries) && entries.len() == 2,
        shows(failure_json(failure), "plugin"@, JsonModel::Text(failure.0)),
        shows(failure_json(failure), "reason"@, JsonModel::Text(failure.1)),
        texts_json(loaded) == JsonModel::Array(
            Seq::new(loaded.len(), |i: int| JsonModel::Text(loaded[i])),
        ),
{
    let told = failures.map_values(|f: FailureModel| failure_json(f));
    assert(told =~= Seq::new(failures.len(), |i: int| failure_json(failures[i])));
    let report = report_model(loaded, failures)->Object_0;
    assert(report[0] == ("failures"@, JsonModel::Array(told)));
    assert(report[1] == ("loaded"@, texts_json(loaded)));
    let shown = failure_json(failure)->Object_0;
    assert(shown[0] == ("plugin"@, JsonModel::Text(failure.0)));
    assert(shown[1] == ("reason"@, JsonModel::Text(failure.1)));
    assert(texts_json(loaded)->Array_0 =~= Seq::new(
        loaded.len(),
        |i: int| JsonModel::Text(loaded[i]),
    ));
}

/// What is shown of a plugin is what is known of it, each under its own key.
pub proof fn a_plugin_is_shown_as_it_is(info: InfoModel)
    ensures
        shows(info_json(info), "name"@, JsonModel::Text(info.name)),
        shows(info_json(info), "signer"@, JsonModel::Text(info.signer)),
        shows(info_json(info), "runtime"@, JsonModel::Text(info.runtime)),
        shows(info_json(info), "granted"@, texts_json(info.granted)),
        info.version matches Some(version) ==> shows(
            info_json(info),
            "version"@,
            JsonModel::Text(version),
        ),
        info.version is None ==> shows(info_json(info), "version"@, JsonModel::Null),
{
    let shown = info_json(info)->Object_0;
    assert(shown[0] == ("granted"@, texts_json(info.granted)));
    assert(shown[1] == ("name"@, JsonModel::Text(info.name)));
    assert(shown[2] == ("runtime"@, JsonModel::Text(info.runtime)));
    assert(shown[3] == ("signer"@, JsonModel::Text(info.signer)));
    assert(shown[4].0 == "version"@);
}

/// An outcome is shown with its plugin, and with its value or its error where it has one.
pub proof fn an_outcome_is_shown_as_it_is(outcome: Outcome)
    ensures
        shows(outcome_json(outcome), "plugin"@, JsonModel::Text(outcome.plugin@)),
        outcome.value matches Some(value) ==> shows(
            outcome_json(outcome),
            "value"@,
            json_of(value.model()),
        ),
        outcome.error matches Some(error) ==> shows(
            outcome_json(outcome),
            "error"@,
            JsonModel::Text(error@),
        ),
{
    let shown = outcome_json(outcome)->Object_0;
    let at: int = if outcome.error is Some {
        1
    } else {
        0
    };
    assert(shown[at] == ("plugin"@, JsonModel::Text(outcome.plugin@)));
    if outcome.error is Some {
        assert(shown[0] == ("error"@, JsonModel::Text(outcome.error->0@)));
    }
    if outcome.value is Some {
        assert(shown[at + 1] == ("value"@, json_of(outcome.value->0.model())));
    }
}

/// A plugin's line in the log names the plugin and says what it logged.
pub proof fn a_log_line_names_its_plugin(plugin: Seq<char>, args: Seq<Value>)
    ensures
        args.len() > 0 ==> (args[0] matches Value::Str(message) ==> log_text(plugin, args) == seq!['[']
            + plugin + seq![']', ' '] + message@),
{
    reveal_strlit("[");
    reveal_strlit("] ");
    assert("["@ =~= seq!['[']);
    assert("] "@ =~= seq![']', ' ']);
}

/// Each code of an error has a text of its own.
pub proof fn codes_have_their_texts(a: Error, b: Error)
    ensures
        code_of(a) != code_of(b) ==> code_text(code_of(a)) != code_text(code_of(b)),
        code_text(code_of(a)) != "ok"@,
{
    reveal_strlit("ok");
    reveal_strlit("unknown plugin");
    reveal_strlit("plugin error");
    reveal_strlit("Lua error");
    reveal_strlit("I/O error");
    reveal_strlit("configuration error");
    reveal_strlit("capability error");
    reveal_strlit("reentrant call detected (would deadlock)");
    reveal_strlit("WASM error");
    assert("ok"@.len() == 2);
    assert("unknown plugin"@.len() == 14);
    assert("plugin error"@.len() == 12);
    assert("Lua error"@.len() == 9);
    assert("I/O error"@.len() == 9);
    assert("configuration error"@.len() == 19);
    assert("capability error"@.len() == 16);
    assert("reentrant call detected (would deadlock)"@.len() == 40);
    assert("WASM error"@.len() == 10);
    assert("Lua error"@[0] == 'L' && "I/O error"@[0] == 'I');
}

} // verus!
