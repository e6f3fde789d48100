[package]
name = "blackjack"
version = "0.1.0"
edition = "2021"
publish = false

[dependencies]
rand = { version = "0.9", default-features = false }
rand_seeder = "=0.4.0"
sha2 = "=0.10.9"
borsh = { version = "=1.8.1", features = ["derive"] }
serde = { version = "=1.0.229", features = ["derive"] }
anyhow = "=1.0.104"
hex = "=0.4.3"
hyli-contract-sdk = "=0.15.0"
hyli-smt-token = "=0.15.0"
hyli-client-sdk = { version = "=0.15.0", default-features = false, features = ["rest"] }
axum = "0.8"
tokio = { version = "1", features = ["rt-multi-thread", "macros", "sync", "time", "signal"] }
clap = { version = "4", features = ["derive"] }
config = { version = "0.15", default-features = false, features = ["toml"] }
tower-http = { version = "0.6", features = ["cors"] }
tracing = "0.1"
