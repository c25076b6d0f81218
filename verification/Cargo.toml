[package]
name = "uni_v4"
version = "0.1.0"
edition = "2021"
publish = false

[dependencies]
alloy = { version = "=1.8.3", default-features = false, features = ["std", "providers", "rpc-types", "rpc-types-eth", "sol-types", "consensus", "eips", "network"] }
alloy-primitives = { version = "=1.7.3" }
alloy-sol-types = { version = "=1.7.3" }
async-trait = "=0.1.92"
dashmap = "=6.2.1"
eyre = "=0.6.14"
futures = "=0.3.34"
jsonrpsee-core = { version = "0.26", default-features = false, features = ["client"] }
jsonrpsee-ws-client = { version = "0.26", default-features = false }
serde = { version = "=1.0.229", features = ["derive"] }
thiserror = "=2.0.21"
tokio = { version = "=1.54.1", features = ["sync", "rt", "macros"] }
tracing = "=0.1.44"
uniswap_v3_math = "=0.6.2"
