[package]
name = "mta_core"
version = "0.1.0"
edition = "2021"
publish = false

[dependencies]
anyhow = "1"
chrono = "0.4"
clap = { version = "4", features = ["derive"] }
json_comments = "0.2"
lazy_static = "1"
mail-builder = "0.2"
mailparse = "0.14"
mlua = { version = "0.8", features = ["vendored", "lua54", "async", "serialize"] }
reqwest = { version = "0.11", default-features = false, features = ["json"] }
serde = { version = "1", features = ["derive"] }
serde_json = "1"
tokio = { version = "1", features = ["rt", "rt-multi-thread", "sync", "time", "fs", "macros"] }
toml = "0.7"
tracing = "0.1"
uuid = { version = "1", features = ["serde"] }
