[package]
name = "stanchion"
version = "0.1.0"
edition = "2021"
publish = false

[dependencies]
bytes = "*"
flate2 = "*"
futures-executor = "*"
http = "*"
mlua = { version = "*", features = ["lua54", "vendored", "async", "send", "serde"] }
oci-client = { version = "*", default-features = false, features = ["rustls-tls"] }
poem = { version = "*", default-features = false }
proc-macro2 = "*"
pyo3 = { version = "*", features = ["extension-module", "abi3-py39"] }
reqwest = { version = "0.12", default-features = false, features = ["blocking", "rustls-tls"] }
semver = { version = "1", features = ["serde"] }
serde = { version = "1", features = ["derive"] }
serde_json = "1"
sha2 = "0.10"
syn = { version = "2", features = ["full", "extra-traits"] }
tar = "*"
thiserror = "2"
time = { version = "0.3", features = ["formatting", "parsing", "serde"] }
tokio = { version = "1", features = ["rt", "rt-multi-thread", "sync", "fs", "io-util", "time", "macros"] }
tokio-stream = "*"
toml = "*"
tower-service = "*"
