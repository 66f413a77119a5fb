[package]
name = "sixu"
version = "0.1.0"
edition = "2021"
publish = false

[dependencies]
twox-hash = "=2.1.5"
serde = { version = "=1.0.229", features = ["derive"] }
serde_json = "=1.0.154"
tokio = { version = "=1.54.1", features = ["rt-multi-thread", "macros", "io-std", "sync", "time", "fs"] }
tower-lsp-server = "=0.23.0"
ropey = "=1.6.1"
dashmap = "=6.2.1"
