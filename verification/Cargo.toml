[package]
name = "thoenix"
version = "0.1.0"
edition = "2021"
publish = false

[dependencies]
anyhow = "1"
async-trait = "0.1"
axum = "0.6"
bytes = "1"
clap = { version = "4", features = ["derive"] }
ed25519-dalek = "2"
flate2 = "1"
futures-util = "0.3"
git2 = "0.18"
hyper = { version = "0.14", features = ["server"] }
russh = "0.40"
russh-keys = "0.40"
serde = { version = "1", features = ["derive"] }
thiserror = "1"
tokio = { version = "1", features = ["full"] }
tokio-util = { version = "0.7", features = ["codec"] }
tower-http = { version = "0.4", features = ["cors", "trace"] }
tracing = "0.1"
tracing-subscriber = { version = "0.3", features = ["env-filter"] }
