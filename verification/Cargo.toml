[package]
name = "horologium"
version = "0.1.0"
edition = "2021"
publish = false

[dependencies]
anyhow = "*"
chrono = "*"
clap = { version = "*", features = ["derive"] }
dirs = "*"
hostname = "*"
nanoid = "*"
notify = "*"
owo-colors = "*"
rusqlite = { version = "*", features = ["bundled"] }
rustc-hash = "*"
sanitize-filename = "*"
serde = { version = "*", features = ["derive"] }
serde_json = "*"
strsim = "*"
strum = { version = "*", features = ["derive"] }
strum_macros = "*"
tempfile = "*"
tokio = { version = "*", features = ["full"] }
toml = "*"
tracing = "*"
tracing-subscriber = "*"
uuid = { version = "*", features = ["v4", "v7"] }
