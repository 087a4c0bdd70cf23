[package]
name = "myth-loader"
version = "0.1.0"
edition = "2021"
publish = false

[dependencies]
dotenvy = "0.15"
eyre = { version = "0.6", default-features = false, features = ["auto-install", "track-caller"] }
flume = { version = "=0.11.1", default-features = false }
futures-lite = "2"
hex = "=0.4.3"
parity-scale-codec = "=3.7.5"
rand = "=0.9.5"
rayon = "=1.12.0"
serde = { version = "1", features = ["derive"] }
subxt = { version = "=0.41.0", default-features = false, features = ["native", "jsonrpsee", "reconnecting-rpc-client"] }
subxt-signer = { version = "=0.41.0", default-features = false, features = ["std", "subxt", "unstable-eth"] }
tokio = { version = "1", default-features = false, features = ["macros", "rt", "sync", "time"] }
toml = "0.5"
tracing = { version = "0.1", default-features = false, features = ["std"] }
