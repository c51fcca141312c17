[package]
name = "forgetest"
version = "0.1.0"
edition = "2021"
publish = false

[dependencies]
serde_json = "1"
toml_edit = "0.22"
serde = { version = "1", features = ["derive"] }
toml = "0.8"
anyhow = "1"
tokio = { version = "1", features = ["rt-multi-thread", "macros", "time", "process", "sync"] }
reqwest = { version = "0.12", default-features = false, features = ["json"] }
async-trait = "0.1"
futures = "0.3"
chrono = { version = "0.4", features = ["serde"] }
uuid = { version = "1", features = ["v4", "serde"] }
tempfile = "3"
