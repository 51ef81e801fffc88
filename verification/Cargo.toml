[package]
name = "playpen"
version = "0.1.0"
edition = "2021"
publish = false

[dependencies]
anyhow = "=1.0.104"
async-trait = "=0.1.92"
base64 = "=0.22.1"
chrono = "=0.4.45"
futures = "=0.3.34"
glob = "=0.3.4"
grep = "0.3"
htmlescape = "=0.3.1"
ignore = "0.4"
mime_guess = "=2.0.5"
reqwest = { version = "=0.12.28", default-features = false, features = ["multipart"] }
schemars = "=0.8.22"
serde = { version = "=1.0.229", features = ["derive"] }
serde_json = "=1.0.154"
serde_yaml = "=0.9.34"
sha2 = "=0.10.9"
thiserror = "=2.0.21"
tokio = { version = "=1.54.1", features = ["fs", "sync", "macros", "rt", "time"] }
toml = "=0.8.23"
tracing = "=0.1.44"
uuid = { version = "=1.29.0", features = ["v7"] }
