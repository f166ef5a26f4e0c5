[package]
name = "adb-proxy"
version = "0.4.4"
edition = "2021"
publish = false

[dependencies]
clap = { version = "4", features = ["derive", "env"] }
libc = "0.2"
rand = "0.8"
serde = { version = "1", features = ["derive"] }
serde_json = "1"
thiserror = "1"
tokio = { version = "1", features = ["full"] }
toml = "0.8"
tracing = "0.1"
tracing-subscriber = { version = "0.3", features = ["env-filter"] }
