[package]
name = "mogwai-server"
version = "0.1.0"
edition = "2021"
publish = false

[dependencies]
rust_decimal = "1"
toml = "*"
pulldown-cmark = "0.13"
owo-colors = "4"
serde_json = "1"
serde = { version = "1", features = ["derive"] }
anyhow = "1"
clap = { version = "4", features = ["derive"] }
axum = "*"
tokio = { version = "1", features = ["rt-multi-thread", "macros", "sync", "time", "net", "signal"] }
futures-util = "0.3"
humantime = "2"
nix = { version = "*", features = ["signal", "process"] }
rand = "*"
tracing = "0.1"
tracing-subscriber = { version = "0.3", features = ["env-filter"] }
