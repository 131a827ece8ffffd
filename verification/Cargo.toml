[package]
name = "block_prover"
version = "0.1.0"
edition = "2021"
publish = false

[dependencies]
alloy-consensus = { version = "1.0", default-features = false, features = ["std"] }
alloy-primitives = { version = "1.0", default-features = false, features = ["std"] }
alloy-rlp = { version = "0.3", default-features = false, features = ["std"] }
anyhow = "1"
bincode = "1.3"
clap = { version = "4", features = ["derive"] }
dotenv = "0.15"
eyre = "0.6"
reth-primitives-traits = { version = "0.1", default-features = false, features = ["std"] }
revm-primitives = { version = "21", default-features = false }
serde = { version = "1", features = ["derive"] }
tokio = { version = "1", features = ["rt-multi-thread", "macros", "time", "signal"] }
tracing = "0.1"
tracing-subscriber = { version = "0.3", features = ["env-filter"] }
