//! Registering and finding backends.

use stanchion::backend::{BackendRegistry, BoxedInstance, PluginBackend, PluginInstance};
use stanchion::error::Error;
use stanchion::manifest::{Manifest, PluginType};
use stanchion::names::NameMap;
use stanchion::value::Value;

type Backends = BackendRegistry<Box<dyn PluginBackend>>;

struct DummyBackend {
    ty: PluginType,
}

impl PluginBackend for DummyBackend {
    fn plugin_type(&self) -> PluginType {
        self.ty.clone()
    }

    fn load(&self, _manifest: &Manifest, _dir: &str) -> Result<BoxedInstance, Error> {
        Err(Error::Plugin { plugin: "dummy".to_string(), reason: "not implemented".to_string() })
    }
}

struct LuaBackend;
struct WasmBackend;

impl PluginBackend for LuaBackend {
    fn plugin_type(&self) -> PluginType {
        PluginType::Lua
    }

    fn load(&self, _manifest: &Manifest, _dir: &str) -> Result<BoxedInstance, Error> {
        Err(Error::Plugin { plugin: "lua".to_string(), reason: "not implemented".to_string() })
    }
}

impl PluginBackend for WasmBackend {
    fn plugin_type(&self) -> PluginType {
        PluginType::Wasm
    }

    fn load(&self, _manifest: &Manifest, _dir: &str) -> Result<BoxedInstance, Error> {
        Err(Error::Plugin { plugin: "wasm".to_string(), reason: "not implemented".to_string() })
    }
}

#[test]
fn new_registry_is_empty() {
    let registry: Backends = BackendRegistry::new();
    assert!(registry.is_empty());
    assert_eq!(registry.len(), 0);
}

#[test]
fn register_adds_backend() {
    let mut registry: Backends = BackendRegistry::new();
    registry.register(Box::new(LuaBackend));
    assert_eq!(registry.len(), 1);
    assert!(!registry.is_empty());
}

#[test]
fn get_returns_registered_backend() {
    let mut registry: Backends = BackendRegistry::new();
    registry.register(Box::new(LuaBackend));
    assert!(registry.get(&PluginType::Lua).is_some());
    assert!(registry.get(&PluginType::Wasm).is_none());
}

#[test]
fn register_replaces_previous_backend_for_same_type() {
    let mut registry: Backends = BackendRegistry::new();
    registry.register(Box::new(LuaBackend));
    assert_eq!(registry.len(), 1);

    // Register another Lua backend - replaces the first
    registry.register(Box::new(DummyBackend { ty: PluginType::Lua }));
    assert_eq!(registry.len(), 1);
}

#[test]
fn register_allows_multiple_types() {
    let mut registry: Backends = BackendRegistry::new();
    registry.register(Box::new(LuaBackend));
    registry.register(Box::new(WasmBackend));
    assert_eq!(registry.len(), 2);
    assert!(registry.get(&PluginType::Lua).is_some());
    assert!(registry.get(&PluginType::Wasm).is_some());
}

#[test]
fn iter_returns_all_backends() {
    let mut registry: Backends = BackendRegistry::new();
    registry.register(Box::new(LuaBackend));
    registry.register(Box::new(WasmBackend));

    let types: Vec<PluginType> = registry.iter().iter().map(|slot| slot.backend.plugin_type()).collect();
    assert_eq!(types.len(), 2);
    assert!(types.contains(&PluginType::Lua));
    assert!(types.contains(&PluginType::Wasm));
}

#[test]
fn register_preserves_last_write_for_same_type() {
    let mut registry: Backends = BackendRegistry::new();
    registry.register(Box::new(LuaBackend));
    let second_ty = PluginType::Lua;
    registry.register(Box::new(DummyBackend { ty: second_ty.clone() }));
    assert_eq!(registry.len(), 1);
    assert!(registry.get(&second_ty).is_some());
}

#[test]
fn get_returns_none_for_empty_registry() {
    let registry: Backends = BackendRegistry::default();
    assert!(registry.get(&PluginType::Lua).is_none());
}

#[test]
fn len_reflects_registered_backends() {
    let mut registry: Backends = BackendRegistry::new();
    assert_eq!(registry.len(), 0);
    registry.register(Box::new(LuaBackend));
    assert_eq!(registry.len(), 1);
    registry.register(Box::new(WasmBackend));
    assert_eq!(registry.len(), 2);
}

#[test]
fn load_returns_error_for_unimplemented_backends() {
    let manifest = Manifest {
        name: "test".to_string(),
        version: None,
        plugin_type: PluginType::Lua,
        entry: "init.lua".to_string(),
        dependencies: NameMap::new(),
        capabilities: NameMap::new(),
        rocks: NameMap::new(),
        config: NameMap::new(),
        budget: None,
        dir: "/tmp".to_string(),
    };
    let dir = "/tmp";

    let lua = LuaBackend;
    assert!(lua.load(&manifest, dir).is_err());

    let wasm = WasmBackend;
    assert!(wasm.load(&manifest, dir).is_err());

    let dummy = DummyBackend { ty: PluginType::Lua };
    assert!(dummy.load(&manifest, dir).is_err());
}

struct MockPluginInstance;

impl PluginInstance for MockPluginInstance {
    fn call(&self, _method: &str, _args: &[Value]) -> Result<Value, Error> {
        Err(Error::Wasm("not called".to_string()))
    }

    fn runtime(&self) -> &str {
        "mock"
    }
}

struct MockBackend;

impl PluginBackend for MockBackend {
    fn plugin_type(&self) -> PluginType {
        PluginType::Wasm
    }

    fn load(&self, _manifest: &Manifest, _dir: &str) -> Result<BoxedInstance, Error> {
        Ok(BoxedInstance { inner: Box::new(MockPluginInstance) })
    }
}

#[test]
fn backend_registry_new_is_empty() {
    let registry: Backends = BackendRegistry::new();
    assert!(registry.is_empty());
    assert_eq!(registry.len(), 0);
}

#[test]
fn backend_registry_register_adds_backend() {
    let mut registry: Backends = BackendRegistry::new();
    registry.register(Box::new(MockBackend));
    assert_eq!(registry.len(), 1);
    assert!(!registry.is_empty());
}

#[test]
fn backend_registry_get_finds_registered_backend() {
    let mut registry: Backends = BackendRegistry::new();
    registry.register(Box::new(MockBackend));
    assert!(registry.get(&PluginType::Wasm).is_some());
    assert!(registry.get(&PluginType::Lua).is_none());
}

#[test]
fn backend_registry_register_replaces_previous() {
    let mut registry: Backends = BackendRegistry::new();
    registry.register(Box::new(MockBackend));
    assert_eq!(registry.len(), 1);

    registry.register(Box::new(MockBackend));
    assert_eq!(registry.len(), 1);
}

#[test]
fn backend_registry_iter() {
    let mut registry: Backends = BackendRegistry::new();
    registry.register(Box::new(MockBackend));

    let backends = registry.iter();
    assert_eq!(backends.len(), 1);
    assert_eq!(backends[0].backend.plugin_type(), PluginType::Wasm);
}

#[test]
fn plugin_instance_runtime_method() {
    let instance = MockPluginInstance;
    assert_eq!(instance.runtime(), "mock");
}

#[test]
fn the_last_registration_of_a_type_is_the_one_that_loads() {
    let manifest = Manifest {
        name: "test".to_string(),
        version: None,
        plugin_type: PluginType::Wasm,
        entry: "init.wasm".to_string(),
        dependencies: NameMap::new(),
        capabilities: NameMap::new(),
        rocks: NameMap::new(),
        config: NameMap::new(),
        budget: None,
        dir: "/tmp".to_string(),
    };
    let mut registry: Backends = BackendRegistry::new();
    registry.register(Box::new(WasmBackend));
    registry.register(Box::new(LuaBackend));
    registry.register(Box::new(MockBackend));
    let backend = registry.get(&PluginType::Wasm).unwrap();
    let instance = backend.load_bytes(&manifest, "/tmp", b"bytes").unwrap();
    assert_eq!(instance.runtime(), "mock");
    assert!(registry.get(&PluginType::Lua).unwrap().load(&manifest, "/tmp").is_err());
}
