[package]
name = "evix"
version = "0.3.3"
edition = "2021"
publish = false

[dependencies]
anyhow = "1"
color-eyre = "*"
futures-channel = "0.3"
futures-core = "0.3"
futures-util = "0.3"
libc = "0.2"
nix-bindings = "*"
notify = "*"
pound = "*"
serde = { version = "1", features = ["derive"] }
serde_json = "1"
tokio = { version = "1", features = ["full"] }
tokio-util = { version = "0.7", features = ["compat"] }
tracing = "0.1"
tracing-subscriber = { version = "0.3", features = ["env-filter"] }
