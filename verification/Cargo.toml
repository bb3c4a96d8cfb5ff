[package]
name = "cml-core"
version = "0.1.0"
edition = "2021"
publish = false

[dependencies]
humansize = "2"
anyhow = "1"
dirs = "5"
jwalk = "0.8"
serde = { version = "1", features = ["derive"] }
serde_json = "1"
sysinfo = "0.32"
toml = "0.8"
tracing = "0.1"
trash = "5"
