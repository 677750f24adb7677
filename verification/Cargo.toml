[package]
name = "wallet_flow"
version = "0.1.0"
edition = "2021"
publish = false

[dependencies]
tokio = { version = "*", features = ["macros", "rt-multi-thread", "fs"] }
toml = "=0.8.23"
