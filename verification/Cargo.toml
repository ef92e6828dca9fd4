[package]
name = "noaas"
version = "0.1.0"
edition = "2021"
publish = false

[dependencies]
rand = "*"
axum = "*"
tokio = { version = "*", features = ["macros", "rt-multi-thread", "fs", "net"] }

[dev-dependencies]
serde_json = "*"
