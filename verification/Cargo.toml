[package]
name = "soldebug"
version = "0.1.0"
edition = "2021"
publish = false

[dependencies]
alloy-consensus = "2.5.0"
alloy-json-abi = "1.7.3"
alloy-network = "2.5.0"
alloy-primitives = "1.7.3"
alloy-rpc-types = "2.5.0"
clap = { version = "4.6.7", features = ["derive", "env"] }
eyre = "0.6.14"
semver = "1.0.28"
serde = { version = "1.0.229", features = ["derive"] }
serde_json = "1.0.154"
tokio = { version = "1.54.1", features = ["full"] }
tracing = "0.1.44"
tracing-subscriber = { version = "0.3.23", features = ["env-filter"] }
walkdir = "2.5.0"
yansi = "1.0.1"
