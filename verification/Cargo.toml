[package]
name = "evm_contract_exporter"
version = "0.1.0"
edition = "2021"
publish = false

[dependencies]
alloy-dyn-abi = "=1.7.3"
alloy-eips = { version = "1", default-features = false, features = ["std"] }
alloy-json-abi = "=1.7.3"
alloy-primitives = "=1.7.3"
anyhow = "=1.0.104"
axum = "=0.8.9"
clap = { version = "=4.6.7", features = ["derive"] }
humantime-serde = "=1.1.1"
prometheus = { version = "=0.14.0", default-features = false }
rust_decimal = "=1.43.0"
serde = { version = "=1.0.229", features = ["derive"] }
serde_json = "=1.0.154"
serde_yaml_ng = "=0.10.0"
tokio = { version = "=1.54.1", features = ["full"] }
tokio-util = "=0.7.20"
tracing = "=0.1.44"
tracing-subscriber = { version = "=0.3.23", features = ["env-filter", "json"] }
