//! A plugin registry: manifests, dependency order, capabilities, signatures, lockfiles,
//! upgrades, installation from an index, serving that index, and the host that bindings hand to
//! their languages.
//!
//! Each module states what its functions return over a model of their arguments. What touches
//! a file, a socket, a clock or an interpreter hands plain values in and takes plain values
//! back.

pub mod archive;
pub mod audit;
pub mod backend;
pub mod binding;
pub mod binding_laws;
pub mod bridge;
pub mod budget;
pub mod callback;
pub mod capability;
pub mod class;
pub mod clock;
pub mod components;
pub mod config;
pub mod dependency_laws;
pub mod digest_laws;
pub mod discover;
pub mod document;
pub mod error;
pub mod failure;
pub mod fetch;
pub mod grant_laws;
pub mod guard;
pub mod handle;
pub mod host;
pub mod host_laws;
pub mod hosting;
pub mod index;
pub mod install;
pub mod json;
pub mod load;
pub mod load_laws;
pub mod loader;
pub mod lock;
pub mod lua;
pub mod manifest;
pub mod message_laws;
pub mod modules;
pub mod names;
pub mod order_laws;
pub mod outcome_laws;
pub mod package;
pub mod package_laws;
pub mod path;
pub mod path_laws;
pub mod refusal_laws;
pub mod release_laws;
pub mod registry;
pub mod reload;
pub mod reload_laws;
pub mod report_laws;
pub mod resolve;
pub mod sandbox;
pub mod server;
pub mod server_laws;
pub mod signature;
pub mod staging;
pub mod staging_laws;
pub mod text;
pub mod text_laws;
pub mod trust;
pub mod trust_laws;
pub mod turn_laws;
pub mod upgrade;
pub mod upgrade_laws;
pub mod value;
pub mod value_laws;
pub mod version;
pub mod window_laws;
