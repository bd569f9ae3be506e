[package]
name = "lowering"
version = "0.1.0"
edition = "2021"
publish = false

[dependencies]
hex = "0.4"
blake2-rfc = "0.2"
parity-scale-codec = "3"
indexmap = "2"
serde = { version = "1", features = ["derive"] }
serde_json = "1"
contract-metadata = "4"
semver = "1"
