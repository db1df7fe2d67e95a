[package]
name = "compose_sidecar"
version = "0.1.0"
edition = "2021"
publish = false

[dependencies]
alloy-primitives = "=1.7.3"
alloy-consensus = { version = "=2.5.0", features = ["k256"] }
alloy-rlp = "=0.3.17"
alloy-rpc-types-eth = { version = "=2.5.0", default-features = false, features = ["serde"] }
serde = { version = "=1.0.229", features = ["derive"] }
serde_json = "=1.0.154"
config = { version = "=0.15.27", default-features = false, features = ["yaml"] }
tokio = { version = "=1.54.1", features = ["macros", "rt-multi-thread", "sync", "time", "net", "signal"] }
reqwest = { version = "=0.13.5", default-features = false, features = ["json"] }
axum = "=0.8.9"
anyhow = "=1.0.104"
tracing = "=0.1.44"
