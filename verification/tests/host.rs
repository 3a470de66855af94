//! Hosting plugins for foreign callers.

use std::sync::{Arc, Mutex};

use stanchion::audit::Audit;
use stanchion::backend::{BackendRegistry, BoxedInstance, PluginBackend, PluginInstance};
use stanchion::binding::{
    generated_class, next_depth, python_class, python_kind, python_unsupported, ruby_class,
    ruby_key, ruby_kind, ruby_name, ruby_unsupported, ErrorClass, ForeignKind, PythonProbe,
    RubyKey, RubyProbe, MAX_DEPTH,
};
use stanchion::bridge::{from_lua_args, provide, to_lua_args};
use stanchion::budget::{charge_step, Budget, CallBudget, Counts};
use stanchion::callback;
use stanchion::callback::{
    bridge_decision, policy_raised, AllowList, CapabilityCall, CapabilityProvider, PolicyBridge,
};
use stanchion::capability;
use stanchion::capability::{evaluate_policy, Grant, HostSetup, Rules};
use stanchion::class::{ClassArgs, ClassOption, MethodKind, MethodOption, MethodOpts};
use stanchion::config::{HostConfig, SandboxConfig};
use stanchion::document::{document, init_config, parse_args_json};
use stanchion::error::Error;
use stanchion::failure::{FailureReason, LoadFailure, RegistryError};
use stanchion::guard::{next_id, Active, CallGuard, Ids};
use stanchion::host::{
    allowed_names, answer_capability, audit_entries, outcome, AuditEntry, Failure, Outcome,
    Stanchion,
};
use stanchion::hosting::to_error;
use stanchion::json::{
    args_of, audit_json, config_from_json, config_from_options, error_string, judge_document,
    list_json, log_line, outcomes_json, report_json, revoke_code, root_arg, to_ffi_error_code,
    HostOptions, Json, Number, Passed,
};
use stanchion::load::{Placement, Rocks};
use stanchion::loader::Built;
use stanchion::lua::{LuaData, LuaKey};
use stanchion::manifest::{self, Manifest, Param, PluginType};
use stanchion::names::NameMap;
use stanchion::registry::{Group, Registry, StateSource};
use stanchion::sandbox::{global_steps, restricted_globals, Libs, Sandbox};
use stanchion::signature::{DirectoryDigest, Signer};
use stanchion::trust::Listing;
use stanchion::value::{Toml, Value};

#[test]
fn re_entering_the_same_instance_is_refused() {
    let mut ids = Ids::new();
    let mut active = Active::new();
    let id = next_id(&mut ids);
    let outer = CallGuard::enter(&mut active, id).expect("the first entry");
    assert_eq!(CallGuard::enter(&mut active, id).err(), Some(Error::Reentrant));
    outer.leave(&mut active);
    assert!(CallGuard::enter(&mut active, id).is_ok(), "the thread is usable again");
}

#[test]
fn entering_a_different_instance_is_allowed_and_restores_the_first() {
    let mut ids = Ids::new();
    let mut active = Active::new();
    let (first, second) = (next_id(&mut ids), next_id(&mut ids));
    let outer = CallGuard::enter(&mut active, first).expect("the first entry");
    {
        let inner = CallGuard::enter(&mut active, second).expect("a different instance");
        assert_eq!(CallGuard::enter(&mut active, second).err(), Some(Error::Reentrant));
        inner.leave(&mut active);
    }
    assert_eq!(CallGuard::enter(&mut active, first).err(), Some(Error::Reentrant));
    outer.leave(&mut active);
}

#[test]
fn each_thread_tracks_its_own_calls() {
    let mut ids = Ids::new();
    let id = next_id(&mut ids);
    let mut here = Active::new();
    let _outer = CallGuard::enter(&mut here, id).expect("the first entry");
    let mut elsewhere = Active::new();
    CallGuard::enter(&mut elsewhere, id).expect("another thread is not inside this call");
    assert_eq!(here.current(), id);
}

#[test]
fn an_allow_list_denies_what_it_does_not_name() {
    let policy = AllowList::new(vec!["log".to_string()]);
    let request = |name: &str| callback::CapabilityRequest {
        plugin: "p".to_string(),
        capability: name.to_string(),
        params: Value::Mapping(NameMap::new()),
        optional: false,
        signer: "unsigned".to_string(),
    };
    assert_eq!(policy.decide(&request("log")), callback::Decision::Grant);
    assert!(matches!(policy.decide(&request("net")), callback::Decision::Deny(_)));
}

#[test]
fn unknown_library_is_rejected() {
    let config = SandboxConfig {
        libs: Some(vec!["string".to_string(), "sorcery".to_string()]),
        ..SandboxConfig::default()
    };
    assert_eq!(
        config.to_sandbox().err(),
        Some("unknown standard library `sorcery`".to_string())
    );
}

#[test]
fn defaults_cap_memory_and_instructions() {
    let config = SandboxConfig::default();
    assert!(config.memory_limit.is_some());
    assert!(config.instruction_limit.is_some());
    assert!(!config.shared);
}

#[test]
fn a_default_configuration_grants_nothing() {
    let config = HostConfig::default();
    assert!(config.capabilities.allow.is_empty());
    assert!(config.capabilities.callbacks.is_empty());
    assert!(!config.signatures.required);
    assert!(config.plugins.is_none());
}

#[test]
fn only_named_libraries_are_loaded() {
    let config = SandboxConfig {
        libs: Some(vec!["string".to_string(), "math".to_string()]),
        deny: Some(vec!["string.dump".to_string()]),
        ..SandboxConfig::default()
    };
    let sandbox = config.to_sandbox().unwrap();
    let libs = sandbox.loaded_libs();
    assert!(libs.string && libs.math);
    assert!(!libs.io && !libs.os && !libs.debug && !libs.package);
    assert_eq!(sandbox.denied(), &vec!["string.dump".to_string()]);
    assert_eq!(sandbox.memory(), config.memory_limit);
    assert_eq!(sandbox.instructions(), config.instruction_limit);
}

#[test]
fn a_sandbox_is_built_up() {
    let sandbox = Sandbox::restricted()
        .memory_limit(1024)
        .instruction_limit(10)
        .catch_rust_panics(false)
        .libs(Libs::none().with("table").unwrap());
    assert_eq!(sandbox.memory(), Some(1024));
    assert_eq!(sandbox.instructions(), Some(10));
    assert!(!sandbox.catches_panics());
    assert!(sandbox.loaded_libs().table && !sandbox.loaded_libs().string);
    assert!(Libs::none().with("sorcery").is_none());
    assert_eq!(global_steps("os.execute"), vec!["os".to_string(), "execute".to_string()]);
    assert!(!restricted_globals().is_empty());
}

#[test]
fn an_allowance_is_spent_and_restored() {
    let mut counts = Counts::new();
    let budget = CallBudget::new(&mut counts, 10);
    assert!(budget.consume(&mut counts, 6).is_ok());
    assert_eq!(budget.used(&counts), 6);
    assert_eq!(
        budget.consume(&mut counts, 5),
        Err("call exceeded budget of 10 instructions".to_string())
    );
    budget.reset(&mut counts);
    assert_eq!((budget.used(&counts), budget.limit()), (0, 10));
    let budget = Budget::new(&mut counts, 3);
    assert!(budget.consume(&mut counts, 3).is_ok());
    assert_eq!(
        budget.consume(&mut counts, u64::MAX),
        Err("plugin exceeded its instruction limit of 3".to_string())
    );
    assert!(charge_step(1) >= 1);
}

#[test]
fn clones_of_an_allowance_share_one_count() {
    let mut counts = Counts::new();
    let other = CallBudget::new(&mut counts, 5);
    let budget = CallBudget::new(&mut counts, 10);
    let clone = budget.clone();
    assert!(budget.consume(&mut counts, 7).is_ok());
    assert_eq!((clone.used(&counts), clone.limit()), (7, 10));
    assert!(clone.consume(&mut counts, 4).is_err());
    assert_eq!(budget.used(&counts), 11);
    assert_eq!(other.used(&counts), 0);
    budget.reset(&mut counts);
    assert_eq!(clone.used(&counts), 0);
    assert!(budget.consume(&mut counts, budget.limit()).is_ok());
    assert!(clone.consume(&mut counts, 1).is_err());
    let state = Budget::new(&mut counts, 3);
    let member = state.clone();
    assert!(member.consume(&mut counts, 2).is_ok());
    assert_eq!(state.used(&counts), 2);
}

#[test]
fn a_setup_offers_what_it_was_given() {
    let setup: HostSetup<u8, u8> =
        HostSetup::new().capability("log", 1).capability("kv", 2).ambient("print", 3);
    assert_eq!(setup.offered(), vec!["kv".to_string(), "log".to_string()]);
    assert_eq!(setup.provider("log"), Some(&1));
    assert_eq!(setup.provider("net"), None);
    assert_eq!(setup.ambient_labels(), vec!["print".to_string()]);
    assert_eq!(setup.installers().len(), 1);
}

fn mapping(entries: Vec<(&str, Value)>) -> Value {
    let mut map = NameMap::new();
    for (name, value) in entries {
        map.insert(name.to_string(), value);
    }
    Value::Mapping(map)
}

#[test]
fn a_foreign_answer_is_taken_in_native_terms() {
    assert_eq!(
        bridge_decision(callback::Decision::Grant),
        capability::Decision::Grant
    );
    match bridge_decision(callback::Decision::GrantWith(mapping(vec![
        ("path", Value::Str("/tmp".to_string())),
        ("gone", Value::Nil),
    ]))) {
        capability::Decision::GrantWith(params) => {
            assert_eq!(params.len(), 1);
            assert_eq!(params.get("path"), Some(&Toml::Text("/tmp".to_string())));
        }
        other => panic!("expected a narrowed grant, got {other:?}"),
    }
    for bad in [Value::Int(3), mapping(vec![("f", Value::Function)])] {
        assert!(matches!(
            bridge_decision(callback::Decision::GrantWith(bad)),
            capability::Decision::Deny(_)
        ));
    }
    assert_eq!(
        policy_raised("oops"),
        callback::Decision::Deny("the policy raised: oops".to_string())
    );
}

fn other(name: &str) -> Manifest {
    Manifest {
        name: name.to_string(),
        version: None,
        plugin_type: PluginType::Wasm,
        entry: "plugin.wasm".to_string(),
        dependencies: NameMap::new(),
        capabilities: NameMap::new(),
        rocks: NameMap::new(),
        config: NameMap::new(),
        budget: Some(manifest::Budget { max_instructions: 100 }),
        dir: format!("/plugins/{name}"),
    }
}

fn lua(name: &str) -> Manifest {
    Manifest {
        plugin_type: PluginType::Lua,
        entry: "init.lua".to_string(),
        budget: None,
        ..other(name)
    }
}

fn asks(mut manifest: Manifest, name: &str) -> Manifest {
    let params: NameMap<Param> = NameMap::new();
    manifest.capabilities.insert(name.to_string(), params);
    manifest
}

#[test]
fn a_bridged_policy_is_asked_in_foreign_terms() {
    let policy: Box<dyn capability::Policy> = Box::new(PolicyBridge {
        inner: Box::new(AllowList::new(vec!["log".to_string()])),
    });
    let manifest = asks(asks(other("p"), "log"), "net");
    let offered = vec!["log".to_string(), "net".to_string()];
    assert_eq!(
        evaluate_policy(&manifest, &Signer::Unsigned, &offered, Some(&policy)),
        vec!["log".to_string()]
    );
    assert!(evaluate_policy(&manifest, &Signer::Unsigned, &offered, None).is_empty());
    let native: Box<dyn capability::Policy> = Box::new(Rules::deny_all().allow("net"));
    assert_eq!(
        evaluate_policy(&manifest, &Signer::Unsigned, &offered, Some(&native)),
        vec!["net".to_string()]
    );
}

#[test]
fn the_configured_list_decides_where_no_policy_is_given() {
    let mut config = HostConfig::default();
    config.capabilities.allow.push("log".to_string());
    config.capabilities.callbacks.push("clock".to_string());
    let manifest = asks(asks(asks(other("p"), "log"), "net"), "clock");
    let offered: Vec<String> =
        ["log", "net", "clock"].iter().map(|name| name.to_string()).collect();
    let built: Host =
        Stanchion::build(1, &config, None, BackendRegistry::new(), offered.clone()).unwrap();
    assert_eq!(
        evaluate_policy(&manifest, &Signer::Unsigned, &offered, built.registry.policy.as_ref()),
        vec!["clock".to_string(), "log".to_string()]
    );
    let given = PolicyBridge { inner: Box::new(AllowList::new(vec!["net".to_string()])) };
    let built: Host =
        Stanchion::build(1, &config, Some(given), BackendRegistry::new(), offered.clone()).unwrap();
    assert_eq!(
        evaluate_policy(&manifest, &Signer::Unsigned, &offered, built.registry.policy.as_ref()),
        vec!["net".to_string()]
    );
}

/// Answers with what it was asked.
struct Echo {
    fails: bool,
}

impl PluginInstance for Echo {
    fn call(&self, method: &str, args: &[Value]) -> Result<Value, Error> {
        if self.fails {
            return Err(Error::Wasm("trapped".to_string()));
        }
        Ok(Value::List(vec![Value::Str(method.to_string()), Value::Int(args.len() as i64)]))
    }

    fn runtime(&self) -> &str {
        "echo"
    }
}

struct EchoBackend {
    loads: Arc<Mutex<Vec<String>>>,
}

impl PluginBackend for EchoBackend {
    fn plugin_type(&self) -> PluginType {
        PluginType::Wasm
    }

    fn load(&self, manifest: &Manifest, dir: &str) -> Result<BoxedInstance, Error> {
        self.loads.lock().unwrap().push(dir.to_string());
        if manifest.name == "missing" {
            return Err(Error::Wasm("no module".to_string()));
        }
        Ok(BoxedInstance { inner: Box::new(Echo { fails: manifest.name == "bad" }) })
    }
}

type Host = Stanchion<u32>;

fn host(loads: &Arc<Mutex<Vec<String>>>) -> Host {
    let mut backends: BackendRegistry<Box<dyn PluginBackend>> = BackendRegistry::new();
    backends.register(Box::new(EchoBackend { loads: Arc::clone(loads) }));
    let mut config = HostConfig::default();
    config.plugins = Some("/plugins".to_string());
    config.capabilities.allow.push("log".to_string());
    Stanchion::build(7, &config, None, backends, vec!["log".to_string()]).unwrap()
}

fn no_rocks(_manifest: &Manifest) -> Rocks {
    Rocks::NoTree
}

fn listing(_manifest: &Manifest) -> Listing {
    Ok(Vec::new())
}

fn ready(_manifest: &Manifest, _place: Placement, _source: StateSource) -> Option<String> {
    None
}

fn build(
    _registry: &Registry<BoxedInstance, u32>,
    manifest: &Manifest,
    _group: Group,
    _signer: &Signer,
    _digest: &Option<DirectoryDigest>,
) -> Result<Built<BoxedInstance, u32>, FailureReason> {
    if manifest.name == "raises" {
        return Err(FailureReason::Lua("it raised".to_string()));
    }
    Ok(Built {
        instance: BoxedInstance { inner: Box::new(Echo { fails: false }) },
        exports: None,
        granted: vec!["log".to_string()],
        budget: None,
    })
}

fn run(
    instance: &BoxedInstance,
    method: &str,
    args: &[Value],
    counts: Counts,
) -> (Result<Value, Error>, Counts) {
    (instance.call(method, args), counts)
}

fn publish(_had: Option<&u32>, table: u32) -> Result<u32, FailureReason> {
    Ok(table)
}

#[test]
fn a_plugin_that_cannot_be_read_is_reported_where_there_is_no_other() {
    let loads = Arc::new(Mutex::new(Vec::new()));
    let mut host = host(&loads);
    let bad = || LoadFailure {
        name: "bad".to_string(),
        dir: "/plugins/bad".to_string(),
        reason: FailureReason::Manifest("no name".to_string()),
    };
    let report = host.load(Vec::new(), vec![bad()], &no_rocks, &listing, &ready, &build);
    assert!(report.loaded.is_empty());
    assert_eq!(report.failures.len(), 1);
    assert_eq!(report.failures[0].plugin, "bad");
    assert!(!report.is_clean());
    let report = host.load(vec![lua("l")], vec![bad()], &no_rocks, &listing, &ready, &build);
    assert_eq!(report.loaded, vec!["l".to_string()]);
    assert_eq!(report.failures.len(), 1);
    host.registry.setup_error = Some("no setup".to_string());
    let report = host.load(vec![lua("m")], vec![bad()], &no_rocks, &listing, &ready, &build);
    let failed: Vec<&str> = report.failures.iter().map(|f| f.plugin.as_str()).collect();
    assert_eq!(failed, vec!["bad", "m"]);
}

#[test]
fn a_root_of_mixed_plugins_loads() {
    let loads = Arc::new(Mutex::new(Vec::new()));
    let mut host = host(&loads);
    assert_eq!(host.root(None).unwrap(), "/plugins");
    assert_eq!(host.root(Some("/other")).unwrap(), "/other");
    assert!(host.is_empty());
    let mut wrong = other("wrong");
    wrong.entry = "plugin.lua".to_string();
    let report = host.load(
        vec![
            other("w"),
            lua("l"),
            lua("raises"),
            other("missing"),
            wrong,
            asks(asks(other("bad"), "log"), "net"),
        ],
        Vec::new(),
        &no_rocks,
        &listing,
        &ready,
        &build,
    );
    assert_eq!(report.loaded, vec!["l", "w", "bad"]);
    let told: Vec<(String, String)> =
        report.failures.into_iter().map(|f| (f.plugin, f.reason)).collect();
    assert_eq!(
        told,
        vec![
            ("raises".to_string(), "it raised".to_string()),
            ("missing".to_string(), "no module".to_string()),
            (
                "wrong".to_string(),
                "WASM plugin entry must end with '.wasm', got 'plugin.lua'".to_string()
            ),
        ]
    );
    assert_eq!(host.names(), vec!["l", "w", "bad"]);
    assert_eq!(host.len(), 3);
    assert_eq!(
        *loads.lock().unwrap(),
        vec!["/plugins/w".to_string(), "/plugins/missing".to_string(), "/plugins/bad".to_string()]
    );
    let list = host.list();
    assert_eq!(list[0].runtime, "lua");
    assert_eq!(list[1].runtime, "echo");
    assert_eq!(list[2].granted, vec!["log".to_string()]);
    assert_eq!(list[2].signer, "unsigned");
}

#[test]
fn a_call_reaches_the_plugin_it_names() {
    let loads = Arc::new(Mutex::new(Vec::new()));
    let mut host = host(&loads);
    host.load(
        vec![lua("l"), other("w"), other("bad")],
        Vec::new(),
        &no_rocks,
        &listing,
        &ready,
        &build,
    );
    assert_eq!(
        host.call("w", "greet", &[Value::Nil], &mut Counts::new(), &run),
        Ok(Value::List(vec![Value::Str("greet".to_string()), Value::Int(1)]))
    );
    assert_eq!(host.call("bad", "greet", &[], &mut Counts::new(), &run), Err(Error::Wasm("trapped".to_string())));
    assert_eq!(
        host.call("nobody", "greet", &[], &mut Counts::new(), &run),
        Err(Error::UnknownPlugin("nobody".to_string()))
    );
    let outcomes = host.dispatch("greet", &[], &mut Counts::new(), &run);
    let told: Vec<(&str, bool)> =
        outcomes.iter().map(|o| (o.plugin.as_str(), o.error.is_none())).collect();
    assert_eq!(told, vec![("l", true), ("w", true), ("bad", false)]);
    assert_eq!(outcomes[2].error.as_deref(), Some("trapped"));
    assert!(outcomes[2].value.is_none());
}

#[test]
fn a_call_is_handed_a_whole_allowance() {
    let loads = Arc::new(Mutex::new(Vec::new()));
    let mut host = host(&loads);
    host.load(vec![lua("l")], Vec::new(), &no_rocks, &listing, &ready, &build);
    let mut counts = Counts::new();
    let budget = Budget::new(&mut counts, 5);
    host.registry.plugins[0].budget = Some(budget);
    let charge = |_instance: &BoxedInstance, _method: &str, _args: &[Value], mut counts: Counts| {
        let used = budget.used(&counts);
        let charged = budget.consume(&mut counts, 4);
        (charged.map(|()| Value::Int(used as i64)).map_err(Error::Lua), counts)
    };
    for _ in 0..2 {
        assert_eq!(host.call("l", "greet", &[], &mut counts, &charge), Ok(Value::Int(0)));
        assert_eq!(budget.used(&counts), 4);
        let outcomes = host.dispatch("greet", &[], &mut counts, &charge);
        assert_eq!(outcomes[0].value, Some(Value::Int(0)));
        assert_eq!(budget.used(&counts), 4);
    }
}

#[test]
fn a_plugin_of_any_runtime_reloads() {
    let loads = Arc::new(Mutex::new(Vec::new()));
    let mut host = host(&loads);
    host.load(vec![lua("l"), other("w")], Vec::new(), &no_rocks, &listing, &ready, &build);
    let read = |dir: &str| -> Result<Manifest, FailureReason> {
        match dir {
            "/plugins/l" => Ok(lua("l")),
            "/plugins/w" => Ok(other("w")),
            _ => Err(FailureReason::Io("nothing there".to_string())),
        }
    };
    assert_eq!(host.reload("l", &read, &listing, &build, &publish), Ok(()));
    assert_eq!(host.reload("w", &read, &listing, &build, &publish), Ok(()));
    assert_eq!(loads.lock().unwrap().len(), 2);
    assert_eq!(
        host.reload("nobody", &read, &listing, &build, &publish),
        Err(Error::UnknownPlugin("nobody".to_string()))
    );
    let renamed = |_dir: &str| -> Result<Manifest, FailureReason> { Ok(other("z")) };
    assert!(matches!(
        host.reload("w", &renamed, &listing, &build, &publish),
        Err(Error::Config(_))
    ));
    assert!(matches!(
        host.reload("l", &renamed, &listing, &build, &publish),
        Err(Error::Plugin { .. })
    ));
    let gone =
        |_dir: &str| -> Result<Manifest, FailureReason> { Err(FailureReason::Io("gone".to_string())) };
    assert_eq!(
        host.reload("w", &gone, &listing, &build, &publish),
        Err(Error::Io("reading manifest for reload of 'w': gone".to_string()))
    );
    assert_eq!(host.names(), vec!["l", "w"]);
}

#[test]
fn a_capability_is_taken_from_one_plugin() {
    let loads = Arc::new(Mutex::new(Vec::new()));
    let mut host = host(&loads);
    host.load(
        vec![lua("l"), asks(other("w"), "log")],
        Vec::new(),
        &no_rocks,
        &listing,
        &ready,
        &build,
    );
    assert_eq!(host.revoke("l", "log"), Ok(true));
    assert_eq!(host.revoke("w", "log"), Ok(true));
    assert_eq!(host.revoke("w", "log"), Ok(false));
    assert!(host.revoke("nobody", "log").is_err());
    assert_eq!(host.isolation(), "per-plugin");
}

#[test]
fn a_type_without_a_backend_is_named() {
    let config = HostConfig::default();
    let mut bare: Host =
        Stanchion::build(1, &config, None, BackendRegistry::new(), Vec::new()).unwrap();
    assert_eq!(
        bare.load_other(&other("w"), Ok(Vec::new())),
        Err(Failure {
            plugin: "w".to_string(),
            reason: "no backend registered for plugin type 'Wasm'".to_string()
        })
    );
    assert!(matches!(bare.root(None), Err(Error::Config(_))));
    let mut bad = HostConfig::default();
    bad.sandbox.libs = Some(vec!["sorcery".to_string()]);
    let built: Result<Host, Error> =
        Stanchion::build(1, &bad, None, BackendRegistry::new(), Vec::new());
    assert!(matches!(built.err(), Some(Error::Config(_))));
}

#[test]
fn unsigned_plugins_are_refused_where_signatures_are_required() {
    let mut config = HostConfig::default();
    config.signatures.required = true;
    let loads = Arc::new(Mutex::new(Vec::new()));
    let mut backends: BackendRegistry<Box<dyn PluginBackend>> = BackendRegistry::new();
    backends.register(Box::new(EchoBackend { loads: Arc::clone(&loads) }));
    let mut host: Host = Stanchion::build(1, &config, None, backends, Vec::new()).unwrap();
    assert_eq!(
        host.load_other(&other("w"), Ok(Vec::new())),
        Err(Failure {
            plugin: "w".to_string(),
            reason: "signature verification failed".to_string()
        })
    );
    assert!(loads.lock().unwrap().is_empty());
}

#[test]
fn names_that_are_answered_are_granted() {
    let mut config = HostConfig::default();
    config.capabilities.allow.push("log".to_string());
    answer_capability(&mut config, "kv");
    answer_capability(&mut config, "kv");
    assert_eq!(allowed_names(&config), vec!["log".to_string(), "kv".to_string()]);
}

#[test]
fn an_audit_is_told_by_names() {
    let registry: Registry<BoxedInstance, u32> = Registry::new();
    let manifests = vec![asks(asks(other("p"), "net"), "log")];
    let audit: Audit =
        registry.audit(&manifests, Vec::new(), Vec::new(), Vec::new(), &listing);
    assert_eq!(
        audit_entries(&audit),
        vec![AuditEntry {
            plugin: "p".to_string(),
            capabilities: vec!["log".to_string(), "net".to_string()],
            signer: "unsigned".to_string(),
        }]
    );
}

#[test]
fn registry_errors_are_told_apart() {
    let failure = LoadFailure {
        name: "p".to_string(),
        dir: "/p".to_string(),
        reason: FailureReason::Unsigned,
    };
    assert!(matches!(to_error(RegistryError::Reload(failure)), Error::Plugin { .. }));
    assert_eq!(
        to_error(RegistryError::Lua("raised".to_string())),
        Error::Lua("raised".to_string())
    );
    assert!(matches!(
        to_error(RegistryError::Io { path: "/p".to_string(), source: "gone".to_string() }),
        Error::Io(_)
    ));
    assert!(matches!(to_error(RegistryError::Rocks("no".to_string())), Error::Io(_)));
}

/// Answers with its first argument, or refuses.
struct First;

impl CapabilityProvider for First {
    fn invoke(&self, call: &CapabilityCall) -> Result<Value, String> {
        assert_eq!(call.plugin, "p");
        assert_eq!(call.capability, "kv");
        match call.args.first() {
            Some(Value::Function) => Ok(Value::Function),
            Some(Value::Int(n)) => Ok(Value::Int(*n)),
            _ => Err("nothing to answer".to_string()),
        }
    }
}

#[test]
fn a_provider_answers_the_plugin_that_called() {
    let provider: Box<dyn CapabilityProvider> = Box::new(First);
    let grant = Grant::new("p".to_string(), "kv".to_string(), NameMap::new());
    let mut cache = None;
    assert_eq!(
        provide(&provider, "kv", &grant, &vec![LuaData::Integer(4)], &mut cache),
        Ok(LuaData::Integer(4))
    );
    assert_eq!(
        provide(&provider, "kv", &grant, &vec![LuaData::Function(9)], &mut cache),
        Ok(LuaData::Function(9))
    );
    assert_eq!(cache, None);
    assert_eq!(
        provide(&provider, "kv", &grant, &Vec::new(), &mut cache),
        Err("nothing to answer".to_string())
    );
}

#[test]
fn arguments_cross_one_by_one() {
    let mut cache = Some(3);
    let args = [Value::Nil, Value::Function, Value::List(vec![Value::Bool(true)])];
    let made = to_lua_args(&args, &mut cache).unwrap();
    assert_eq!(
        made,
        vec![
            LuaData::Nil,
            LuaData::Function(3),
            LuaData::Table(vec![(LuaKey::Integer(1), LuaData::Boolean(true))]),
        ]
    );
    assert!(to_lua_args(&args, &mut cache).is_err());
    assert_eq!(from_lua_args(&made, &mut cache).len(), 3);
    assert_eq!(cache, Some(3));
}

#[test]
fn class_options_are_parsed() {
    let pair = |key: &str, value: Option<&str>| ClassOption::Pair {
        key: key.to_string(),
        value: value.map(str::to_string),
    };
    let args = ClassArgs::parse(&vec![pair("class", Some("Greeter"))]).unwrap();
    assert_eq!(args.class.as_deref(), Some("Greeter"));
    assert!(args.handle.is_none() && args.lua_name.is_none());
    assert_eq!(ClassArgs::parse(&vec![pair("class", None)]).unwrap_err().0, 0);
    assert_eq!(
        ClassArgs::parse(&vec![pair("class", Some("A")), pair("other", Some("B"))])
            .unwrap_err()
            .0,
        1
    );
    assert!(ClassArgs::parse(&vec![ClassOption::Bare]).is_err());
}

#[test]
fn methods_are_classified() {
    let opts = MethodOpts::parse(&vec![MethodOption::Field]).unwrap();
    let get = MethodKind::classify(&opts, true, 0, "greeting").unwrap();
    assert!(matches!(get, MethodKind::FieldGet));
    assert_eq!(get.default_name("greeting"), "greeting");
    let plain = MethodOpts::parse(&vec![]).unwrap();
    let method = MethodKind::classify(&plain, true, 1, "greet").unwrap();
    assert!(matches!(method, MethodKind::Method { optional: false }));
    assert!(method.is_required());
    let optional = MethodOpts::parse(&vec![MethodOption::Optional]).unwrap();
    let method = MethodKind::classify(&optional, true, 0, "on_unload").unwrap();
    assert!(!method.is_required());
    assert!(MethodOpts::parse(&vec![MethodOption::Unknown]).is_err());
}

#[test]
fn errors_have_codes_and_classes() {
    let error = Error::UnknownPlugin("p".to_string());
    assert_eq!(to_ffi_error_code(&error), 1);
    assert_eq!(to_ffi_error_code(&Error::Reentrant), 7);
    assert!(!error_string(1).is_empty());
    assert_ne!(error_string(1), error_string(2));
    assert_eq!(ruby_class(&error), ErrorClass::UnknownPlugin);
    assert_eq!(ruby_name(ErrorClass::Io), "Stanchion::IOError");
    assert_eq!(python_class(&Error::Io("x".to_string())), ErrorClass::Base);
    assert_eq!(generated_class(&Error::Reentrant), ErrorClass::Reentrant);
}

#[test]
fn a_foreign_object_is_told_by_its_probes() {
    let mut python = PythonProbe {
        is_none: false,
        is_bool: true,
        is_int: true,
        is_float: false,
        is_str: false,
        is_dict: false,
        is_list: false,
        is_tuple: false,
    };
    assert_eq!(python_kind(&python), ForeignKind::Bool);
    python.is_bool = false;
    assert_eq!(python_kind(&python), ForeignKind::Int);
    let ruby = RubyProbe {
        is_nil: false,
        is_true: false,
        is_false: false,
        is_integer: false,
        is_float: false,
        is_string: false,
        is_symbol: true,
        is_array: false,
        is_hash: false,
    };
    assert_eq!(ruby_kind(&ruby), ForeignKind::Str);
    assert!(python_unsupported("set").contains("set"));
    assert!(ruby_unsupported("Proc").contains("Proc"));
    assert_eq!(ruby_key(&RubyKey::Integer(-12)), Ok("-12".to_string()));
    assert_eq!(ruby_key(&RubyKey::Text("k".to_string())), Ok("k".to_string()));
    assert!(ruby_key(&RubyKey::Other("Float".to_string())).is_err());
}

#[test]
fn values_nest_only_so_deep() {
    let mut depth = 0;
    while let Ok(next) = next_depth(depth) {
        assert_eq!(next, depth + 1);
        depth = next;
    }
    assert!(depth <= MAX_DEPTH + 1);
}

fn object(entries: Vec<(&str, Json)>) -> Json {
    let mut map = NameMap::new();
    for (name, value) in entries {
        map.insert(name.to_string(), value);
    }
    Json::Object(map)
}

#[test]
fn a_configuration_is_read_from_json() {
    let json = object(vec![
        ("plugins", Json::Text("/plugins".to_string())),
        ("memory_limit", Json::Number(Number::Int(1024))),
        ("allow", Json::Array(vec![Json::Text("log".to_string())])),
    ]);
    let config = config_from_json(&json).unwrap();
    assert_eq!(config.plugins.as_deref(), Some("/plugins"));
    assert_eq!(config.sandbox.memory_limit, Some(1024));
    assert_eq!(config.capabilities.allow, vec!["log".to_string()]);
    let options = config_from_options(HostOptions {
        plugins: Some("/p".to_string()),
        libs: None,
        deny: None,
        memory_limit: Some(5),
        instruction_limit: None,
        shared: true,
        require_signatures: true,
        allow: Some(vec!["kv".to_string()]),
    });
    assert!(options.sandbox.shared && options.signatures.required);
    assert_eq!(options.sandbox.memory_limit, Some(5));
}

#[test]
fn arguments_are_a_list_or_nothing() {
    assert_eq!(args_of(&Json::Null), Ok(Vec::new()));
    assert_eq!(args_of(&Json::Array(vec![Json::Bool(true)])), Ok(vec![Value::Bool(true)]));
    assert!(args_of(&Json::Bool(true)).is_err());
    assert_eq!(root_arg(None), Ok(None));
    assert_eq!(root_arg(Some(Ok(String::new()))), Ok(None));
    assert_eq!(root_arg(Some(Ok("/p".to_string()))), Ok(Some("/p".to_string())));
    assert_eq!(
        root_arg(Some(Err("bad".to_string()))),
        Err("plugin root is not valid UTF-8: bad".to_string())
    );
    assert_eq!(judge_document(None, Ok(Json::Bool(true))), Ok(Json::Null));
    assert_eq!(
        judge_document(Some(Ok("{".to_string())), Err("eof".to_string())),
        Err("invalid JSON: eof".to_string())
    );
}

fn passed(text: &str) -> Passed {
    Some(Ok(text.to_string()))
}

#[test]
fn a_document_is_parsed_from_its_text() {
    assert_eq!(document(None), Ok(Json::Null));
    assert_eq!(
        document(Some(Err("bad byte".to_string()))),
        Err("input is not valid UTF-8: bad byte".to_string())
    );
    assert!(document(passed("{")).unwrap_err().starts_with("invalid JSON: EOF"));
    let json = document(passed(
        r#"{"b": [1, -2, 18446744073709551615, 0.5, true], "a": {"x": null}, "b2": "text"}"#,
    ))
    .unwrap();
    let Json::Object(map) = json else { panic!("not an object") };
    let names: Vec<&str> = map.entries.iter().map(|entry| entry.0.as_str()).collect();
    assert_eq!(names, vec!["a", "b", "b2"]);
    assert_eq!(
        map.get("b"),
        Some(&Json::Array(vec![
            Json::Number(Number::Int(1)),
            Json::Number(Number::Int(-2)),
            Json::Number(Number::Big {
                value: u64::MAX,
                nearest: 18_446_744_073_709_551_616.0_f64.to_bits(),
            }),
            Json::Number(Number::Float(0.5_f64.to_bits())),
            Json::Bool(true),
        ]))
    );
    assert_eq!(
        parse_args_json(passed("[1, \"a\"]")),
        Ok(vec![Value::Int(1), Value::Str("a".to_string())])
    );
    assert_eq!(parse_args_json(None), Ok(Vec::new()));
    assert_eq!(
        parse_args_json(passed("3")),
        Err("args_json must be a JSON array or null".to_string())
    );
    let config = init_config(passed(r#"{"plugins": "/p", "shared": true}"#)).unwrap();
    assert_eq!(config.plugins.as_deref(), Some("/p"));
    assert!(config.sandbox.shared);
    assert_eq!(init_config(None).unwrap_err(), "config must be a JSON object".to_string());
}

#[test]
fn reports_are_written_as_json() {
    let loads = Arc::new(Mutex::new(Vec::new()));
    let mut host = host(&loads);
    let report = host.load(vec![other("w")], Vec::new(), &no_rocks, &listing, &ready, &build);
    match report_json(&report) {
        Json::Object(map) => {
            assert_eq!(
                map.get("loaded"),
                Some(&Json::Array(vec![Json::Text("w".to_string())]))
            );
        }
        other => panic!("not an object: {other:?}"),
    }
    match list_json(&host.list()) {
        Json::Array(items) => assert_eq!(items.len(), 1),
        other => panic!("not an array: {other:?}"),
    }
    let told: Vec<Outcome> = vec![outcome("w", Err(Error::Reentrant))];
    match outcomes_json(&told) {
        Json::Array(items) => assert_eq!(items.len(), 1),
        other => panic!("not an array: {other:?}"),
    }
    assert_eq!(audit_json(&Vec::new()), Json::Array(Vec::new()));
    assert!(log_line("w", &vec![Value::Str("hello".to_string())]).contains("hello"));
    assert_eq!(revoke_code("w", "log", Ok(true)).0, 0);
    assert_ne!(revoke_code("w", "log", Err(Error::Reentrant)).0, 0);
}
