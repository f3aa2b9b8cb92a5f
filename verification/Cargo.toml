[package]
name = "sie_lsp"
version = "0.1.0"
edition = "2021"
publish = false

[dependencies]
sie-parser = "*"
baskontoplan = "*"
serde_json = "1"
tokio = { version = "1", features = ["io-std", "rt-multi-thread", "macros"] }
tower-lsp = "0.20"
