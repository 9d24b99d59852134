[package]
name = "storage_node"
version = "0.1.0"
edition = "2021"
publish = false

[dependencies]
async-trait = "0.1"
futures = "0.3"
libp2p = { version = "0.52", default-features = false, features = ["kad", "mdns", "request-response", "tokio"] }
secp256k1 = { version = "0.24", features = ["bitcoin-hashes-std"] }
tokio = { version = "1", features = ["macros", "rt", "sync"] }
tokio-stream = "0.1"
tonic = { version = "0.8", default-features = false, features = ["codegen"] }
