[package]
name = "armature-rhai"
version = "0.2.1"
edition = "2021"
publish = false

[dependencies]
armature-core = "*"
bytes = "1"
dashmap = "*"
notify = "*"
rhai = { version = "1", features = ["sync"] }
serde_json = "1"
thiserror = "*"
tokio = { version = "1", features = ["rt", "rt-multi-thread", "sync", "time", "macros"] }
tracing = "0.1"
