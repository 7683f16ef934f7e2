[package]
name = "wallet_core"
version = "0.1.0"
edition = "2021"
publish = false

[dependencies]
bdk_wallet = { version = "*", features = ["keys-bip39"] }
bdk_esplora = { version = "*", features = ["async-https"] }
sqlx = { version = "*", features = ["sqlite", "runtime-tokio"] }
axum = "*"
tokio = { version = "*", features = ["full"] }
serde = { version = "*", features = ["derive"] }
