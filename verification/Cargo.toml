[package]
name = "coreconf"
version = "0.1.0"
edition = "2021"
publish = false

[dependencies]
base64 = "0.22"
serde_json = "1"

[dev-dependencies]
ciborium = "0.2"
