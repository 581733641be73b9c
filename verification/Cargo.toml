[package]
name = "hyper_processor"
version = "0.1.0"
edition = "2021"
publish = false

[dependencies]
sha2 = "0.10"
anyhow = "1"
clap = { version = "4", features = ["derive"] }
tokio = { version = "1", features = ["macros", "rt-multi-thread", "time", "signal", "sync"] }
chrono = "0.4"
serde = { version = "1", features = ["derive"] }
serde_json = "1"
tempfile = "3"
nix = { version = "0.29", features = ["signal", "user", "process"] }
hyper = { version = "0.14", features = ["full"] }
prometheus = "0.13"
tracing = "0.1"
tracing-subscriber = { version = "0.3", features = ["env-filter", "json"] }
ctor = "0.2"
config = "0.13"
aya = "0.11"
