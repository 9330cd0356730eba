[package]
name = "kratos-core"
version = "0.1.0"
edition = "2021"
publish = false

[dependencies]
hex = "0.4"
ed25519-dalek = { version = "2", features = ["rand_core"] }
schnorrkel = "0.11"
rand = "0.8"
serde = { version = "1", features = ["derive"] }
serde_json = "1"
clap = { version = "4", features = ["derive"] }
tokio = { version = "1", features = ["macros", "rt-multi-thread"] }
anyhow = "1"
thiserror = "1"
tracing = "0.1"
tracing-subscriber = { version = "0.3", features = ["env-filter"] }
