//! Manifests, discovery and the order of dependencies.

use stanchion::components::dependency_components;
use stanchion::discover::{check_read, discover, Reading};
use stanchion::failure::FailureReason;
use stanchion::manifest::{
    default_entry, Budget, DependencySpec, DetailedDependency, Manifest, PluginType,
};
use stanchion::names::NameMap;
use stanchion::resolve::{judge_dependency, known_versions, resolve_order};
use stanchion::version::{Order, Version, VersionReq};

fn requirement(text: &str) -> VersionReq {
    VersionReq::parse(text).unwrap()
}

fn named(name: &str, plugin_type: PluginType, entry: &str) -> Manifest {
    Manifest {
        name: name.to_string(),
        version: None,
        plugin_type,
        entry: entry.to_string(),
        dependencies: NameMap::new(),
        capabilities: NameMap::new(),
        rocks: NameMap::new(),
        config: NameMap::new(),
        budget: None,
        dir: "/tmp/test".to_string(),
    }
}

fn manifest(plugin_type: &str, entry: &str) -> Manifest {
    let kind = match plugin_type {
        "lua" => PluginType::Lua,
        _ => PluginType::Wasm,
    };
    named("p", kind, entry)
}

fn lua(name: &str) -> Manifest {
    named(name, PluginType::Lua, "init.lua")
}

fn versioned(name: &str, version: &str) -> Manifest {
    let mut out = lua(name);
    out.version = Some(Version::parse(version).unwrap());
    out
}

fn needs(mut manifest: Manifest, name: &str, req: &str) -> Manifest {
    manifest.dependencies.insert(name.to_string(), DependencySpec::Requirement(requirement(req)));
    manifest
}

fn may_use(mut manifest: Manifest, name: &str, req: &str) -> Manifest {
    manifest.dependencies.insert(
        name.to_string(),
        DependencySpec::Detailed(DetailedDependency { version: requirement(req), optional: true }),
    );
    manifest
}

#[test]
fn accepts_a_relative_entry_inside_the_plugin() {
    assert!(manifest("lua", "init.lua").validate().is_ok());
    assert!(manifest("lua", "src/init.lua").validate().is_ok());
    assert!(manifest("wasm", "plugin.wasm").validate().is_ok());
    assert!(manifest("wasm", "./build/plugin.wasm").validate().is_ok());
}

#[test]
fn rejects_entries_that_escape_the_plugin_directory() {
    for entry in ["../elsewhere/x.wasm", "../../etc/init.lua", ""] {
        assert!(manifest("wasm", entry).validate().is_err(), "`{entry}` must be refused");
    }
    let mut m = manifest("wasm", "plugin.wasm");
    m.entry = "/etc/evil.wasm".to_string();
    assert!(m.validate().is_err(), "absolute entry must be refused");
}

#[test]
fn lua_plugin_defaults() {
    let manifest = named("test", PluginType::Lua, "init.lua");
    assert_eq!(manifest.plugin_type, PluginType::Lua);
    assert!(manifest.validate().is_ok());
}

#[test]
fn wasm_plugin_defaults() {
    let mut manifest = named("test", PluginType::Wasm, "init.wasm");
    assert_eq!(manifest.plugin_type, PluginType::Wasm);
    assert!(manifest.validate().is_ok());

    manifest.entry = "init.lua".to_string();
    let err = manifest.validate().unwrap_err();
    assert!(err.contains("wasm"));
    assert!(err.contains(".lua"));
}

#[test]
fn lua_wrong_entry_is_rejected() {
    let manifest = named("test", PluginType::Lua, "init.wasm");
    let err = manifest.validate().unwrap_err();
    assert!(err.contains("Lua plugin entry"));
    assert!(err.contains(".lua"));
}

#[test]
fn effective_version_defaults_to_zero() {
    let manifest = named("test", PluginType::Lua, "init.lua");
    assert!(manifest.effective_version().same(&Version::new(0, 0, 0)));
}

#[test]
fn effective_version_uses_declared_version() {
    let mut manifest = named("test", PluginType::Lua, "init.lua");
    manifest.version = Some(Version::new(1, 2, 3));
    assert!(manifest.effective_version().same(&Version::new(1, 2, 3)));
}

#[test]
fn entry_path_joins_dir_and_entry() {
    let manifest = named("test", PluginType::Lua, "init.lua");
    assert_eq!(manifest.entry_path(), "/tmp/test/init.lua");
}

#[test]
fn dependency_spec_requirement_is_not_optional() {
    let dep = DependencySpec::Requirement(requirement("^1.0"));
    assert!(!dep.is_optional());
}

#[test]
fn detailed_dependency_can_be_optional() {
    let dep = DependencySpec::Detailed(DetailedDependency {
        version: requirement("^1.0"),
        optional: true,
    });
    assert!(dep.is_optional());

    let dep = DependencySpec::Detailed(DetailedDependency {
        version: requirement("^1.0"),
        optional: false,
    });
    assert!(!dep.is_optional());
}

#[test]
fn dependency_spec_requirement_access() {
    let dep = DependencySpec::Requirement(requirement("^1.0"));
    assert_eq!(dep.requirement().to_string(), "^1.0");
}

#[test]
fn detailed_dependency_requirement_access() {
    let dep = DependencySpec::Detailed(DetailedDependency {
        version: requirement("^2.0"),
        optional: false,
    });
    assert_eq!(dep.requirement().to_string(), "^2.0");
}

#[test]
fn the_entry_faults_are_named() {
    assert_eq!(
        manifest("lua", "").validate().unwrap_err(),
        "plugin entry must not be empty"
    );
    assert_eq!(
        manifest("lua", "/x.lua").validate().unwrap_err(),
        "plugin entry '/x.lua' must be a relative path inside the plugin"
    );
    assert_eq!(
        manifest("lua", "a/../x.lua").validate().unwrap_err(),
        "plugin entry 'a/../x.lua' must not contain '..'"
    );
    assert_eq!(default_entry(), "init.lua");
    assert_eq!(PluginType::default(), PluginType::Lua);
    let budget = Budget { max_instructions: 7 };
    assert_eq!(budget.max_instructions, 7);
}

#[test]
fn versions_are_parsed_compared_and_matched() {
    let old = Version::parse("1.2.3").unwrap();
    let new = Version::parse("1.10.0").unwrap();
    assert_eq!(old.order(&new), Order::Less);
    assert_eq!(new.order(&old), Order::Greater);
    assert_eq!(old.order(&Version::new(1, 2, 3)), Order::Equal);
    assert_eq!(Version::new(1, 2, 3).to_string(), "1.2.3");
    assert!(Version::parse("one").is_err());
    assert!(VersionReq::parse("^one").is_err());
    assert!(requirement("^1.2").matches(&new));
    assert!(!requirement("^1.2").matches(&Version::parse("2.0.0").unwrap()));
    assert!(!requirement("^1.2").matches(&Version::parse("1.3.0-rc.1").unwrap()));
    assert_eq!(requirement(">=1.2,<2").to_string(), ">=1.2, <2");
}

#[test]
fn a_read_manifest_needs_a_name_and_rocks_that_parse() {
    let fine = lua("greeter");
    assert!(check_read(&fine, &Vec::new()).is_ok());
    let nameless = lua("");
    assert_eq!(
        check_read(&nameless, &Vec::new()).unwrap_err().to_string(),
        "invalid manifest: `name` must not be empty"
    );
    let mut rocky = lua("greeter");
    rocky.rocks.insert("penlight".to_string(), ">= 1".to_string());
    rocky.rocks.insert("lpeg".to_string(), "??".to_string());
    assert_eq!(
        check_read(&rocky, &vec![Some("bad".to_string()), None]).unwrap_err().to_string(),
        "invalid manifest: rock `lpeg`: bad"
    );
    assert!(check_read(&rocky, &vec![None, None]).is_ok());
}

fn reading(name: &str, manifest: Result<Manifest, FailureReason>) -> Reading {
    Reading { name: name.to_string(), dir: format!("/root/{name}"), manifest }
}

#[test]
fn discovery_does_not_depend_on_the_walk() {
    let one = discover(vec![
        reading("b", Ok(lua("second"))),
        reading("c", Err(FailureReason::Manifest("broken".to_string()))),
        reading("a", Ok(lua("first"))),
    ]);
    let other = discover(vec![
        reading("c", Err(FailureReason::Manifest("broken".to_string()))),
        reading("a", Ok(lua("first"))),
        reading("b", Ok(lua("second"))),
    ]);
    for (manifests, failures) in [one, other] {
        let names: Vec<&str> = manifests.iter().map(|m| m.name.as_str()).collect();
        assert_eq!(names, vec!["first", "second"]);
        assert_eq!(failures.len(), 1);
        assert_eq!(failures[0].name, "c");
        assert_eq!(failures[0].dir, "/root/c");
    }
}

fn ordered(manifests: Vec<Manifest>) -> (Vec<String>, Vec<(String, String)>) {
    let (order, failures) = resolve_order(manifests);
    (
        order.into_iter().map(|m| m.name).collect(),
        failures.into_iter().map(|f| (f.name.clone(), f.reason.to_string())).collect(),
    )
}

#[test]
fn of_two_plugins_with_one_name_one_is_reported() {
    let mut first = lua("x");
    first.dir = "/r/a".to_string();
    let mut second = lua("x");
    second.dir = "/r/b".to_string();
    let (order, failures) = resolve_order(vec![first, second]);
    assert_eq!(order.len(), 1);
    assert_eq!(order[0].dir, "/r/b");
    assert_eq!(failures.len(), 1);
    assert_eq!(failures[0].name, "x");
    assert_eq!(failures[0].dir, "/r/a");
    assert_eq!(
        failures[0].reason,
        FailureReason::Manifest("another plugin is already registered as `x`".to_string())
    );
}

#[test]
fn dependencies_come_before_what_needs_them() {
    let (order, failures) = ordered(vec![
        needs(lua("app"), "store", "^1.0"),
        needs(versioned("store", "1.2.0"), "log", "*"),
        versioned("log", "0.1.0"),
    ]);
    assert_eq!(order, vec!["log", "store", "app"]);
    assert!(failures.is_empty());
}

#[test]
fn a_missing_or_unfit_dependency_fails_its_plugin() {
    let (order, failures) = ordered(vec![
        needs(lua("app"), "store", "^1.0"),
        needs(lua("other"), "old", "^2.0"),
        versioned("old", "1.0.0"),
        may_use(lua("third"), "store", "^1.0"),
    ]);
    assert_eq!(order, vec!["old", "third"]);
    let names: Vec<&str> = failures.iter().map(|f| f.0.as_str()).collect();
    assert_eq!(names, vec!["app", "other"]);
    assert!(failures[0].1.contains("store"), "{}", failures[0].1);
    assert!(failures[1].1.contains("1.0.0"), "{}", failures[1].1);
}

#[test]
fn a_cycle_fails_every_plugin_on_it() {
    let (order, failures) = ordered(vec![
        needs(lua("a"), "b", "*"),
        needs(lua("b"), "a", "*"),
        lua("c"),
    ]);
    assert_eq!(order, vec!["c"]);
    assert_eq!(failures.len(), 2);
    for (_, reason) in failures {
        assert!(reason.contains("a") && reason.contains("b"), "{reason}");
    }
}

#[test]
fn known_versions_are_those_of_the_root() {
    let known = known_versions(&vec![versioned("a", "1.0.0"), lua("b")]);
    assert_eq!(known.get("a").unwrap().to_string(), "1.0.0");
    assert_eq!(known.get("b").unwrap().to_string(), "0.0.0");
    assert!(known.get("c").is_none());
}

#[test]
fn components_join_what_depends_on_each_other() {
    let manifests = vec![
        needs(lua("a"), "b", "*"),
        lua("b"),
        lua("c"),
        may_use(lua("d"), "c", "*"),
        lua("e"),
    ];
    let found = dependency_components(&manifests);
    let of = |name: &str| *found.get(name).unwrap();
    assert_eq!(of("a"), of("b"));
    assert_eq!(of("c"), of("d"));
    assert!(of("a") != of("c"));
    assert!(of("e") != of("a") && of("e") != of("c"));
}

#[test]
fn a_dependency_is_judged_by_what_was_found() {
    let found = |allowed: bool| Some(("1.0.0".to_string(), allowed));
    assert_eq!(judge_dependency("d", "^1", found(true), false), None);
    assert_eq!(
        judge_dependency("d", "^2", found(false), true),
        Some(FailureReason::IncompatibleDependency {
            name: "d".to_string(),
            required: "^2".to_string(),
            found: "1.0.0".to_string(),
        })
    );
    assert_eq!(judge_dependency("d", "^1", None, true), None);
    assert_eq!(
        judge_dependency("d", "^1", None, false),
        Some(FailureReason::MissingDependency("d".to_string()))
    );
}
