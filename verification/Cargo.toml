[package]
name = "elisym_core"
version = "0.1.0"
edition = "2021"
publish = false

[dependencies]
bs58 = "=0.5.1"
nostr-sdk = { version = "=0.43.0", default-features = false, features = ["nip59"] }
serde = { version = "=1.0.229", features = ["derive"] }
serde_json = "=1.0.154"
solana-sdk = { version = "=2.3.1", default-features = false, features = ["full"] }
thiserror = "=2.0.21"
tokio = { version = "=1.54.1", features = ["macros", "rt", "sync", "time"] }
tracing = { version = "=0.1.44", default-features = false, features = ["std"] }
