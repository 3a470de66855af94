//! On whose word plugins load, and how a whole load goes.

use std::cell::RefCell;

use stanchion::budget::{Budget, Counts};
use stanchion::capability::{
    grant_capabilities, CapabilityRequest, Decision, Grant, Policy, Rules,
};
use stanchion::failure::{describe, FailureReason, LoadFailure, Panicked, RegistryError};
use stanchion::load::{verify_rocks, Placement, RockLookup, Rocks};
use stanchion::loader::Built;
use stanchion::lock::{
    hex_of, is_sha256_hex, normalize_digest, LockError, LockedPlugin, Lockfile, LOCK_VERSION,
};
use stanchion::manifest::{DependencySpec, DetailedDependency, Manifest, Param, PluginType};
use stanchion::modules::{
    check_entry, check_module, extend_package_path, install_rocks, module_candidates,
    prepend_path, rock_action, slash_path, strip_dir, wanted_rocks, RockAction,
};
use stanchion::names::NameMap;
use stanchion::registry::{Group, Isolation, Plugin, Registry, StateSource};
use stanchion::reload::{take_exports, ExportsKind, TakeExports};
use stanchion::sandbox::Sandbox;
use stanchion::signature::{
    fold, DirectoryDigest, PluginVerifier, Revocation, Revocations, Signer, VerifyError,
};
use stanchion::trust::Listing;
use stanchion::value::Toml;
use stanchion::version::{Version, VersionReq};

type Plugins = Registry<String, u32>;

const ROOT_HEX: &str =
    "e252942a2baf31c209a05f4c9b5ac9d0e4a1a23389085e78d9961070bdc1b6c6";

fn files() -> Vec<(String, Vec<u8>)> {
    vec![
        ("plugin.toml".to_string(), b"name = \"p\"\n".to_vec()),
        ("init.lua".to_string(), b"return {}\n".to_vec()),
    ]
}

fn lua(name: &str) -> Manifest {
    Manifest {
        name: name.to_string(),
        version: None,
        plugin_type: PluginType::Lua,
        entry: "init.lua".to_string(),
        dependencies: NameMap::new(),
        capabilities: NameMap::new(),
        rocks: NameMap::new(),
        config: NameMap::new(),
        budget: None,
        dir: format!("/plugins/{name}"),
    }
}

fn needs(mut manifest: Manifest, name: &str) -> Manifest {
    manifest.dependencies.insert(
        name.to_string(),
        DependencySpec::Requirement(VersionReq::parse("*").unwrap()),
    );
    manifest
}

fn may_use(mut manifest: Manifest, name: &str) -> Manifest {
    manifest.dependencies.insert(
        name.to_string(),
        DependencySpec::Detailed(DetailedDependency {
            version: VersionReq::parse("*").unwrap(),
            optional: true,
        }),
    );
    manifest
}

fn asks(mut manifest: Manifest, name: &str, params: Vec<(&str, Toml)>) -> Manifest {
    let mut map = NameMap::new();
    for (key, value) in params {
        map.insert(key.to_string(), Param { value, text: String::new() });
    }
    manifest.capabilities.insert(name.to_string(), map);
    manifest
}

/// A verifier that always says the same.
struct Always(fn() -> Result<Signer, VerifyError>);

impl PluginVerifier for Always {
    fn verify(&self, _digest: &DirectoryDigest, _dir: &str) -> Result<Signer, VerifyError> {
        (self.0)()
    }
}

#[test]
fn a_digest_covers_every_file_but_the_signature() {
    let digest = DirectoryDigest::compute(&files());
    assert_eq!(digest.len(), 2);
    assert!(!digest.is_empty());
    assert!(digest.covers("init.lua") && !digest.covers("other.lua"));
    assert!(digest.matches("init.lua", b"return {}\n"));
    assert!(!digest.matches("init.lua", b"return {}"));
    assert!(!digest.matches("other.lua", b"return {}\n"));
    assert_eq!(digest.hex(), ROOT_HEX);
    assert_eq!(digest.root()[0], 0xe2);

    let mut signed = files();
    signed.push(("plugin.sig".to_string(), b"signature".to_vec()));
    signed.push(("plugin.sigstore.json".to_string(), b"{}".to_vec()));
    assert_eq!(DirectoryDigest::compute(&signed).hex(), digest.hex());

    let mut shuffled = files();
    shuffled.reverse();
    assert_eq!(DirectoryDigest::compute(&shuffled).preimage(), digest.preimage());

    let mut changed = files();
    changed[1].1.push(b' ');
    assert_ne!(DirectoryDigest::compute(&changed).preimage(), digest.preimage());
    assert_ne!(DirectoryDigest::compute(&changed).hex(), digest.hex());
}

#[test]
fn a_signer_says_who_vouched() {
    let signer = Signer::verified("me", Some("there".to_string()));
    assert_eq!(signer.to_string(), "me (via there)");
    assert_eq!(signer.identity(), Some("me"));
    assert_eq!(signer.issuer(), Some("there"));
    assert!(signer.is_verified());
    assert_eq!(Signer::Unsigned.to_string(), "unsigned");
    assert_eq!(Signer::Unsigned.identity(), None);
}

#[test]
fn revocations_refuse_what_they_name() {
    let digest = DirectoryDigest::compute(&files());
    let signer = Signer::verified("me", None);
    let none = Revocations::new();
    assert!(none.is_empty() && !none.needs_digest());
    assert_eq!(none.check(Some(&digest), &signer), None);

    let by_build = Revocations::new().deny_digest(&format!(" {} ", digest.hex().to_uppercase()), "bad");
    assert!(by_build.needs_digest());
    assert_eq!(
        by_build.check(Some(&digest), &signer),
        Some("this build is revoked: bad".to_string())
    );
    assert_eq!(by_build.check(None, &signer), None);

    let by_signer = Revocations::new().deny_identity("me", "left");
    assert_eq!(
        by_signer.check(None, &signer),
        Some("signer `me` is revoked: left".to_string())
    );
    assert_eq!(by_signer.check(Some(&digest), &Signer::Unsigned), None);
    assert_eq!(by_signer.entries().len(), 1);
}

#[test]
fn a_revocation_must_name_something() {
    let empty = Revocation { digest: None, identity: None, reason: None };
    assert!(matches!(
        Revocations::load("/etc/deny.toml", vec![empty]),
        Err(VerifyError::Invalid(_))
    ));
    let fine = Revocation { digest: None, identity: Some("me".to_string()), reason: None };
    let list = Revocations::load("/etc/deny.toml", vec![fine]).unwrap();
    assert_eq!(
        list.check(None, &Signer::verified("me", None)),
        Some("signer `me` is revoked".to_string())
    );
}

#[test]
fn a_digest_is_pinned_with_its_algorithm() {
    let hex = "AB".repeat(32);
    assert_eq!(normalize_digest(&hex), format!("sha256:{}", "ab".repeat(32)));
    assert_eq!(
        normalize_digest(&normalize_digest(&hex)),
        normalize_digest(&hex)
    );
    assert_eq!(hex_of(&format!("sha256:{hex}")), hex);
    assert!(is_sha256_hex(&hex) && !is_sha256_hex("ab") && !is_sha256_hex(&"g".repeat(64)));
}

#[test]
fn a_lockfile_accepts_what_it_pins_and_nothing_else() {
    let digest = DirectoryDigest::compute(&files());
    let signer = Signer::verified("me", None);
    let manifest = lua("p");
    let mut lock = Lockfile::new();
    assert!(lock.is_empty());
    assert_eq!(
        lock.check(&manifest, &digest, &signer).unwrap_err(),
        LockError::Unlocked("p".to_string())
    );
    assert!(lock
        .pin("p", LockedPlugin::from_digest(&digest).signed_by("me").fetched_from("anywhere"))
        .is_none());
    assert!(lock.check(&manifest, &digest, &signer).is_ok());
    assert!(matches!(
        lock.check(&manifest, &digest, &Signer::Unsigned),
        Err(LockError::SignerMismatch { .. })
    ));
    assert!(lock.pin("p", LockedPlugin::new(&"00".repeat(32))).is_some());
    assert!(matches!(
        lock.check(&manifest, &digest, &signer),
        Err(LockError::DigestMismatch { .. })
    ));
    lock.pin("p", LockedPlugin::from_digest(&digest).at_version(Version::new(1, 0, 0)));
    assert!(matches!(
        lock.check(&manifest, &digest, &signer),
        Err(LockError::VersionMismatch { .. })
    ));
    assert_eq!(lock.get("p").unwrap().hex(), digest.hex());
}

#[test]
fn a_lockfile_of_a_later_format_is_refused() {
    let later = Lockfile { version: LOCK_VERSION + 1, plugins: NameMap::new() };
    assert!(matches!(Lockfile::parse(later), Err(LockError::Malformed(_))));
    let mut bad = Lockfile::new();
    bad.pin("p", LockedPlugin::new("sha256:short"));
    assert!(matches!(Lockfile::parse(bad), Err(LockError::Malformed(_))));
    assert!(Lockfile::parse(Lockfile::new()).is_ok());
}

#[test]
fn trust_is_decided_in_order() {
    let manifest = lua("p");
    let open: Plugins = Registry::new();
    assert!(!open.wants_digest());
    let (signer, digest) =
        open.verify_plugin(&manifest, Err("unreadable".to_string())).unwrap();
    assert_eq!(signer, Signer::Unsigned);
    assert!(digest.is_none());

    let mut strict: Plugins = Registry::new();
    strict.require_signatures = true;
    assert_eq!(
        strict.verify_plugin(&manifest, Ok(files())).unwrap_err(),
        FailureReason::Unsigned
    );

    strict.verifier = Some(Box::new(Always(|| Ok(Signer::verified("me", None)))));
    let (signer, digest) = strict.verify_plugin(&manifest, Ok(files())).unwrap();
    assert_eq!(signer.identity(), Some("me"));
    assert_eq!(digest.unwrap().hex(), DirectoryDigest::compute(&files()).hex());
    assert_eq!(
        strict.verify_plugin(&manifest, Err("gone".to_string())).unwrap_err().to_string(),
        "gone"
    );

    strict.revocations = Some(Revocations::new().deny_identity("me", "left"));
    assert!(matches!(
        strict.verify_plugin(&manifest, Ok(files())),
        Err(FailureReason::Revoked(_))
    ));
    strict.revocations = None;
    strict.lockfile = Some(Lockfile::new());
    assert!(matches!(
        strict.verify_plugin(&manifest, Ok(files())),
        Err(FailureReason::Lock(LockError::Unlocked(_)))
    ));
}

#[test]
fn what_a_verifier_says_is_told_apart() {
    let manifest = lua("p");
    let mut registry: Plugins = Registry::new();
    registry.verifier = Some(Box::new(Always(|| Err(VerifyError::Missing))));
    assert!(registry.verify_plugin(&manifest, Ok(files())).is_ok());
    registry.verifier =
        Some(Box::new(Always(|| Err(VerifyError::Untrusted("who".to_string())))));
    assert!(matches!(
        registry.verify_plugin(&manifest, Ok(files())),
        Err(FailureReason::UntrustedSigner(_))
    ));
    registry.verifier =
        Some(Box::new(Always(|| Err(VerifyError::Invalid("bytes".to_string())))));
    assert!(matches!(
        registry.verify_plugin(&manifest, Ok(files())),
        Err(FailureReason::SignatureInvalid(_))
    ));
    registry.verifier = Some(Box::new(Always(|| Err(VerifyError::Io("disk".to_string())))));
    assert_eq!(
        registry.verify_plugin(&manifest, Ok(files())).unwrap_err(),
        FailureReason::Io("disk".to_string())
    );
}

fn no_rocks(_manifest: &Manifest) -> Rocks {
    Rocks::NoTree
}

fn listing(_manifest: &Manifest) -> Listing {
    Ok(files())
}

fn ready(_manifest: &Manifest, _place: Placement, _source: StateSource) -> Option<String> {
    None
}

fn build(
    registry: &Plugins,
    manifest: &Manifest,
    _group: Group,
    _signer: &Signer,
    _digest: &Option<DirectoryDigest>,
) -> Result<Built<String, u32>, FailureReason> {
    let wired = registry.dependency_table(manifest)?;
    if manifest.name == "broken" {
        return Err(FailureReason::Lua("it raised".to_string()));
    }
    Ok(Built {
        instance: format!("{} with {}", manifest.name, wired.len()),
        exports: Some(7),
        granted: Vec::new(),
        budget: None,
    })
}

#[test]
fn one_bad_plugin_never_stops_the_others() {
    let mut registry: Plugins = Registry::new();
    let unreadable = vec![LoadFailure {
        name: "mangled".to_string(),
        dir: "/plugins/mangled".to_string(),
        reason: FailureReason::Manifest("no".to_string()),
    }];
    let report = registry
        .load_dir(
            vec![
                needs(lua("app"), "store"),
                lua("store"),
                lua("broken"),
                needs(lua("user"), "broken"),
                may_use(lua("casual"), "broken"),
                needs(lua("orphan"), "nobody"),
            ],
            unreadable,
            &no_rocks,
            &listing,
            &ready,
            &build,
        )
        .unwrap();
    assert_eq!(report.loaded, vec!["store", "casual", "app"]);
    assert_eq!(registry.names(), vec!["store", "casual", "app"]);
    assert_eq!(registry.get("app").unwrap().instance(), "app with 1");
    assert_eq!(registry.get("casual").unwrap().instance(), "casual with 0");
    assert!(!report.is_clean());
    let failed: Vec<(&str, String)> = report
        .failures
        .iter()
        .map(|f| (f.name.as_str(), f.reason.to_string()))
        .collect();
    assert_eq!(
        failed,
        vec![
            ("mangled", "invalid manifest: no".to_string()),
            ("orphan", "depends on `nobody`, which was not found".to_string()),
            ("broken", "it raised".to_string()),
            ("user", "skipped because `broken` failed to load".to_string()),
        ]
    );
}

#[test]
fn a_name_is_loaded_once() {
    let mut registry: Plugins = Registry::new();
    for expected in [1, 0] {
        let report = registry
            .load_dir(vec![lua("p")], Vec::new(), &no_rocks, &listing, &ready, &build)
            .unwrap();
        assert_eq!(report.loaded.len(), expected);
    }
    assert_eq!(registry.len(), 1);
}

#[test]
fn a_plugin_of_its_own_state_has_no_dependencies() {
    let mut registry: Plugins = Registry::isolated(Sandbox::restricted());
    let sources = RefCell::new(Vec::new());
    let prepare = |m: &Manifest, place: Placement, source: StateSource| {
        sources.borrow_mut().push((m.name.clone(), place, source));
        None
    };
    let report = registry
        .load_dir(
            vec![may_use(lua("app"), "store"), lua("store")],
            Vec::new(),
            &no_rocks,
            &listing,
            &prepare,
            &build,
        )
        .unwrap();
    assert_eq!(report.loaded, vec!["store"]);
    assert_eq!(
        report.failures[0].reason,
        FailureReason::CrossStateDependency("store".to_string())
    );
    assert_eq!(
        sources.into_inner(),
        vec![("store".to_string(), Placement::Alone, StateSource::Fresh)]
    );
}

#[test]
fn a_group_shares_one_state() {
    let mut registry: Plugins = Registry::grouped(Sandbox::restricted());
    let prepared = RefCell::new(Vec::new());
    let prepare = |m: &Manifest, _place: Placement, _source: StateSource| {
        prepared.borrow_mut().push(m.name.clone());
        None
    };
    let report = registry
        .load_dir(
            vec![needs(lua("app"), "store"), lua("store"), lua("alone")],
            Vec::new(),
            &no_rocks,
            &listing,
            &prepare,
            &build,
        )
        .unwrap();
    assert!(report.is_clean());
    assert_eq!(prepared.into_inner().len(), 2);
    let group = |name: &str| registry.get(name).unwrap().group();
    assert_eq!(group("app"), group("store"));
    assert!(group("app") != group("alone"));
}

#[test]
fn the_hosts_own_state_is_configured_once() {
    let mut registry: Plugins = Registry::new();
    let sources = RefCell::new(Vec::new());
    let prepare = |_m: &Manifest, _place: Placement, source: StateSource| {
        sources.borrow_mut().push(source);
        None
    };
    registry
        .load_dir(vec![lua("a"), lua("b")], Vec::new(), &no_rocks, &listing, &prepare, &build)
        .unwrap();
    assert_eq!(
        sources.into_inner(),
        vec![
            StateSource::Host { configure: true },
            StateSource::Host { configure: false },
        ]
    );
}

#[test]
fn a_state_that_cannot_be_had_ends_a_load() {
    let mut registry: Plugins = Registry::new();
    let prepare = |m: &Manifest, _place: Placement, _source: StateSource| {
        if m.name == "b" {
            Some("out of memory".to_string())
        } else {
            None
        }
    };
    let result = registry.load_dir(
        vec![lua("a"), lua("b"), lua("c")],
        Vec::new(),
        &no_rocks,
        &listing,
        &prepare,
        &build,
    );
    assert_eq!(result.unwrap_err(), RegistryError::Lua("out of memory".to_string()));
    assert_eq!(registry.names(), vec!["a"]);

    registry.setup_error = Some("no setup".to_string());
    let result =
        registry.load_dir(vec![lua("c")], Vec::new(), &no_rocks, &listing, &ready, &build);
    assert_eq!(result.unwrap_err().to_string(), RegistryError::Lua("no setup".to_string()).to_string());
}

#[test]
fn rocks_are_looked_up_before_a_plugin_loads() {
    let mut manifest = lua("p");
    assert!(verify_rocks(&manifest, &Rocks::Unsupported).is_ok());
    manifest.rocks.insert("lpeg".to_string(), ">= 1".to_string());
    assert!(matches!(
        verify_rocks(&manifest, &Rocks::Unsupported),
        Err(FailureReason::Rocks(_))
    ));
    assert!(matches!(verify_rocks(&manifest, &Rocks::NoTree), Err(FailureReason::Rocks(_))));
    let tree = |found: Option<&str>, satisfied: bool| {
        Rocks::Tree(vec![RockLookup {
            required: Ok(">= 1".to_string()),
            found: found.map(str::to_string),
            satisfied,
        }])
    };
    assert!(verify_rocks(&manifest, &tree(Some("1.1-1"), true)).is_ok());
    assert_eq!(
        verify_rocks(&manifest, &tree(None, false)).unwrap_err().to_string(),
        "rock `lpeg` >= 1 is not installed"
    );
    assert_eq!(
        verify_rocks(&manifest, &tree(Some("0.9-1"), false)).unwrap_err().to_string(),
        "rock `lpeg` >= 1 is installed at 0.9-1"
    );
}

fn loaded(names: &[&str]) -> Plugins {
    let mut registry: Plugins = Registry::new();
    for name in names {
        registry.add_plugin(Plugin {
            manifest: lua(name),
            granted: vec!["log".to_string(), "kv".to_string()],
            group: Group(0),
            signer: Signer::Unsigned,
            digest: None,
            instance: name.to_string(),
            exports: Some(1),
            budget: None,
        });
    }
    registry
}

fn publish(had: Option<&u32>, table: u32) -> Result<u32, FailureReason> {
    Ok(had.copied().unwrap_or(100) + table)
}

#[test]
fn a_reload_swaps_one_plugin_in_its_place() {
    let mut registry = loaded(&["a", "b"]);
    let read = |dir: &str| {
        assert_eq!(dir, "/plugins/a");
        Ok(lua("a"))
    };
    registry.reload("a", &read, &listing, &build, &publish).unwrap();
    assert_eq!(registry.names(), vec!["a", "b"]);
    assert_eq!(registry.get("a").unwrap().instance(), "a with 0");
    assert_eq!(registry.get("a").unwrap().exports(), Some(&8));
    assert_eq!(registry.get("b").unwrap().instance(), "b");
}

#[test]
fn a_failed_reload_leaves_the_old_instance() {
    let mut registry = loaded(&["a", "broken"]);
    let renamed = |_dir: &str| Ok(lua("c"));
    let gone = |_dir: &str| Err(FailureReason::Io("no file".to_string()));
    let same = |_dir: &str| Ok(lua("broken"));
    assert_eq!(
        registry.reload("nobody", &renamed, &listing, &build, &publish).unwrap_err(),
        RegistryError::UnknownPlugin("nobody".to_string())
    );
    for (result, expected) in [
        (
            registry.reload("a", &renamed, &listing, &build, &publish),
            "manifest renamed the plugin to `c`; remove and load it again instead",
        ),
        (registry.reload("a", &gone, &listing, &build, &publish), "no file"),
        (registry.reload("broken", &same, &listing, &build, &publish), "it raised"),
    ] {
        match result {
            Err(RegistryError::Reload(failure)) => {
                assert!(failure.reason.to_string().contains(expected), "{failure:?}")
            }
            other => panic!("expected a failed reload, got {other:?}"),
        }
    }
    let silent = |_r: &Plugins,
                  _m: &Manifest,
                  _g: Group,
                  _s: &Signer,
                  _d: &Option<DirectoryDigest>|
     -> Result<Built<String, u32>, FailureReason> {
        Ok(Built { instance: "new".to_string(), exports: None, granted: Vec::new(), budget: None })
    };
    let again = |_dir: &str| Ok(lua("a"));
    assert!(matches!(
        registry.reload("a", &again, &listing, &silent, &publish),
        Err(RegistryError::Reload(LoadFailure { reason: FailureReason::MissingExports(_), .. }))
    ));
    assert_eq!(registry.get("a").unwrap().instance(), "a");
    assert_eq!(registry.get("broken").unwrap().instance(), "broken");
}

#[test]
fn removing_and_revoking_touch_one_plugin() {
    let mut registry = loaded(&["a", "b", "c"]);
    assert_eq!(registry.revoke("b", "log"), Ok(true));
    assert_eq!(registry.revoke("b", "log"), Ok(false));
    assert_eq!(registry.holds_grant("b", "kv"), Ok(true));
    assert_eq!(registry.holds_grant("b", "log"), Ok(false));
    assert_eq!(registry.holds_grant("a", "log"), Ok(true));
    assert_eq!(registry.remove("a").unwrap().name(), "a");
    assert!(registry.remove("a").is_err());
    assert_eq!(registry.names(), vec!["b", "c"]);
    assert_eq!(registry.get("c").unwrap().instance(), "c");
    let mut counts = Counts::new();
    let outcomes =
        registry.dispatch(&mut counts, |instance: &String, counts| (instance.len(), counts));
    assert_eq!(outcomes.len(), 2);
    assert_eq!((outcomes[0].name.as_str(), outcomes[0].result), ("b", 1));
    let other = Budget::new(&mut counts, 9);
    assert!(other.consume(&mut counts, 4).is_ok());
    let budget = Budget::new(&mut counts, 5);
    registry.plugins[0].budget = Some(budget);
    assert_eq!(registry.get("b").unwrap().budget(), Some(&budget));
    for _ in 0..2 {
        // Each call is handed the whole allowance.
        let outcomes = registry.dispatch(&mut counts, |_instance: &String, mut counts| {
            (budget.consume(&mut counts, 3).is_ok(), counts)
        });
        assert!(outcomes[0].result && !outcomes[1].result);
        assert_eq!((budget.used(&counts), other.used(&counts)), (6, 4));
    }
}

#[test]
fn a_registry_is_configured_step_by_step() {
    let registry: Plugins = Registry::isolated(Sandbox::restricted())
        .with_policy(Box::new(Rules::deny_all().allow("log")))
        .with_verifier(Box::new(Always(|| Ok(Signer::verified("me", None)))))
        .require_signatures(true)
        .with_revocations(Revocations::new().deny_identity("you", "gone"))
        .with_lockfile(Lockfile::new())
        .with_constructor("create")
        .with_setup(None);
    assert!(registry.policy.is_some() && registry.verifier.is_some());
    assert!(registry.require_signatures);
    assert!(registry.revocations.is_some());
    assert!(registry.lockfile().unwrap().is_empty());
    assert!(matches!(registry.isolation(), Isolation::PerPlugin(_)));
    assert_eq!(registry.constructor, "create");
    assert!(registry.check_setup().is_ok());
    let failed = registry.with_setup(Some("no".to_string()));
    assert_eq!(failed.check_setup(), Err(RegistryError::Lua("no".to_string())));
}

#[test]
fn new_revocations_unload_what_they_name() {
    let mut registry = loaded(&["a", "b"]);
    let hex = DirectoryDigest::compute(&files()).hex();
    let list = Revocations::new().deny_digest(&hex, "bad");
    assert_eq!(registry.needs_hashing(&list), vec![true, true]);
    let other = DirectoryDigest::compute(&Vec::new());
    let gone = registry.apply_revocations(
        list,
        &vec![Some(Ok(DirectoryDigest::compute(&files()))), Some(Ok(other))],
    );
    assert_eq!(gone.len(), 1);
    assert_eq!(gone[0].name, "a");
    assert_eq!(registry.names(), vec!["b"]);

    let list = Revocations::new().deny_digest(&hex, "bad");
    let gone = registry.apply_revocations(list, &vec![Some(Err("unreadable".to_string()))]);
    assert_eq!(gone[0].reason, FailureReason::Io("unreadable".to_string()));
    assert!(registry.is_empty());
}

#[test]
fn an_audit_runs_nothing_and_reports_everything() {
    let mut registry: Plugins = Registry::new();
    registry.verifier = Some(Box::new(Always(|| Ok(Signer::verified("me", None)))));
    let manifests = vec![
        asks(asks(lua("a"), "log", vec![]), "net", vec![("optional", Toml::Boolean(true))]),
        lua("b"),
    ];
    let audit = registry.audit(
        &manifests,
        Vec::new(),
        vec!["print".to_string()],
        vec!["log".to_string()],
        &listing,
    );
    assert_eq!(audit.plugins.len(), 2);
    assert_eq!(audit.plugins[0].signer.identity(), Some("me"));
    assert_eq!(audit.plugins[0].requests.len(), 2);
    assert!(audit.plugins[0].requests[1].optional);
    let unmet: Vec<&str> = audit.unsatisfiable().iter().map(|r| r.name.as_str()).collect();
    assert_eq!(unmet, vec!["net"]);
}

/// Grants everything, under parameters of its own.
struct Narrow;

impl Policy for Narrow {
    fn decide(&self, request: &CapabilityRequest) -> Decision {
        assert_eq!(request.plugin, "p");
        let mut params = NameMap::new();
        params.insert("path".to_string(), Toml::Text("/tmp".to_string()));
        Decision::GrantWith(params)
    }
}

#[test]
fn capabilities_are_bound_as_they_are_granted() {
    let offered = vec!["fs".to_string(), "log".to_string(), "net".to_string()];
    let policy: Box<dyn Policy> =
        Box::new(Rules::deny_all().allow("log").allow_with("fs", Box::new(Narrow)));
    let bound = RefCell::new(Vec::new());
    let bind = |grant: &Grant| -> Option<FailureReason> {
        bound.borrow_mut().push((grant.name().to_string(), grant.params().len()));
        None
    };
    let optional = vec![("optional", Toml::Boolean(true))];
    let manifest = asks(
        asks(
            asks(asks(lua("p"), "fs", vec![]), "log", vec![]),
            "net",
            optional,
        ),
        "unheard",
        vec![("optional", Toml::Boolean(true))],
    );
    let granted =
        grant_capabilities(&manifest, &Signer::Unsigned, &offered, Some(&policy), bind);
    assert_eq!(granted, Ok(vec!["fs".to_string(), "log".to_string()]));
    assert_eq!(
        bound.into_inner(),
        vec![("fs".to_string(), 1), ("log".to_string(), 0)]
    );

    let never = |_grant: &Grant| Some(FailureReason::Lua("unbound".to_string()));
    assert_eq!(
        grant_capabilities(&manifest, &Signer::Unsigned, &offered, Some(&policy), never),
        Err(FailureReason::Lua("unbound".to_string()))
    );
    let required = asks(lua("p"), "net", vec![]);
    assert_eq!(
        grant_capabilities(&required, &Signer::Unsigned, &offered, Some(&policy), never)
            .unwrap_err()
            .to_string(),
        "capability `net` denied: `net` is not granted by policy"
    );
    assert_eq!(
        grant_capabilities(&required, &Signer::Unsigned, &offered, None, never)
            .unwrap_err()
            .to_string(),
        "capability `net` denied: no capability policy is configured"
    );
    assert_eq!(
        grant_capabilities(&required, &Signer::Unsigned, &Vec::new(), None, never),
        Err(FailureReason::UnknownCapability("net".to_string()))
    );
}

#[test]
fn a_loaded_file_is_the_file_that_was_verified() {
    let digest = DirectoryDigest::compute(&files());
    let manifest = lua("p");
    assert!(check_entry(&manifest, Some(&digest), b"return {}\n").is_ok());
    assert_eq!(
        check_entry(&manifest, Some(&digest), b"return 1\n").unwrap_err(),
        FailureReason::DigestMismatch("init.lua".to_string())
    );
    assert!(check_entry(&manifest, None, b"anything").is_ok());
    assert!(check_module(Some(&digest), "/p", "/p/init.lua", b"return {}\n").is_ok());
    assert!(check_module(Some(&digest), "/p", "/p/init.lua", b"return 1\n").is_err());
    assert!(check_module(Some(&digest), "/p", "/usr/lib/x.lua", b"return 1\n").is_ok());
}

#[test]
fn modules_are_searched_for_along_the_path() {
    assert_eq!(slash_path("lib//./util.lua"), "lib/util.lua");
    assert_eq!(slash_path("./init.lua"), "init.lua");
    assert_eq!(strip_dir("", "./lib/a.lua"), Some("lib/a.lua".to_string()));
    assert_eq!(strip_dir("/p", "/p/lib/a.lua"), Some("lib/a.lua".to_string()));
    assert_eq!(strip_dir("/p", "/q/a.lua"), None);
    assert_eq!(
        module_candidates("/p/?.lua;/p/?/init.lua", "a.b"),
        vec!["/p/a/b.lua".to_string(), "/p/a/b/init.lua".to_string()]
    );
    let once = prepend_path("/q/?.lua", "/p/?.lua").unwrap();
    assert_eq!(once, "/p/?.lua;/q/?.lua");
    assert_eq!(prepend_path(&once, "/p/?.lua"), None);
    let path = extend_package_path("./?.lua", "/p").unwrap();
    assert!(path.starts_with("/p/?.lua;/p/?/init.lua"), "{path}");
}

#[test]
fn rocks_that_are_wanted_are_fetched_once() {
    let mut a = lua("a");
    a.rocks.insert("lpeg".to_string(), ">= 1".to_string());
    let mut b = lua("b");
    b.rocks.insert("lpeg".to_string(), ">= 2".to_string());
    let wanted = wanted_rocks(&vec![a, b]);
    assert_eq!(wanted.len(), 1);
    assert_eq!(rock_action(Ok(()), true), RockAction::Keep);
    assert_eq!(rock_action(Ok(()), false), RockAction::Fetch);
    assert_eq!(
        rock_action(Err("bad".to_string()), true),
        RockAction::Fail("bad".to_string())
    );
}

#[test]
fn exports_are_a_table_or_a_function() {
    assert_eq!(take_exports(&ExportsKind::Nil), TakeExports::Nothing);
    assert_eq!(take_exports(&ExportsKind::Table), TakeExports::Table);
    assert_eq!(take_exports(&ExportsKind::Function), TakeExports::Call);
    assert_eq!(
        take_exports(&ExportsKind::Other("string".to_string())),
        TakeExports::Refuse(
            "`exports` must be a table or a function returning one, found string".to_string()
        )
    );
}

#[test]
fn a_panic_is_told_by_its_message() {
    assert_eq!(describe(Some("literal"), None), "literal");
    assert_eq!(describe(None, Some("owned")), "owned");
    assert!(!describe(None, None).is_empty());
    let panicked = Panicked::new("boom".to_string());
    assert_eq!(panicked.message(), "boom");
    assert!(FailureReason::Panicked(panicked).to_string().contains("boom"));
}

#[test]
fn isolation_decides_where_a_state_comes_from() {
    let shared: Plugins = Registry::new();
    assert_eq!(shared.acquire_state(), StateSource::Host { configure: true });
    assert!(matches!(shared.isolation, Isolation::Shared));
    let isolated: Plugins = Registry::isolated(Sandbox::permissive());
    assert_eq!(isolated.acquire_state(), StateSource::Fresh);
    assert_eq!(Group(3).to_string(), "3");
}

#[test]
fn the_signed_bytes_name_each_file_and_its_hash() {
    let mut hashes = NameMap::new();
    hashes.insert("b".to_string(), [2u8; 32]);
    hashes.insert("a".to_string(), [1u8; 32]);
    let mut expected = vec![b'a', 0];
    expected.extend([1u8; 32]);
    expected.extend([0, b'b', 0]);
    expected.extend([2u8; 32]);
    expected.push(0);
    assert_eq!(fold(&hashes), expected);
}

#[test]
fn one_failing_rock_leaves_the_others() {
    let mut wanted = NameMap::new();
    for (name, required) in [("a", ">= 1"), ("b", "??"), ("c", "*"), ("d", "*")] {
        wanted.insert(name.to_string(), required.to_string());
    }
    let query = |name: &str, required: &str| match (name, required) {
        (_, "??") => RockAction::Fail("unreadable".to_string()),
        ("a", _) => RockAction::Keep,
        _ => RockAction::Fetch,
    };
    let fetch = |name: &str, _required: &str| {
        if name == "c" {
            Some("no network".to_string())
        } else {
            None
        }
    };
    let report = install_rocks(&wanted, &query, &fetch);
    assert_eq!(report.satisfied, vec!["a"]);
    assert_eq!(report.installed, vec!["d"]);
    assert_eq!(
        report.failures,
        vec![
            ("b".to_string(), "unreadable".to_string()),
            ("c".to_string(), "no network".to_string()),
        ]
    );
}
