[package]
name = "gini-core"
version = "0.1.0"
edition = "2021"
publish = false

[dependencies]
semver = "1"
serde = { version = "1", features = ["derive"] }
serde_json = "1"
thiserror = "1"
tokio = { version = "1", features = ["sync", "fs", "rt", "macros"] }
async-trait = "0.1"
libloading = "0.8"
log = "0.4"
