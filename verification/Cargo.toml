[package]
name = "kvnode"
version = "0.1.0"
edition = "2021"
publish = false

[dependencies]
lru = { version = "=0.18.5", default-features = false }
serde = { version = "*", features = ["derive"] }
serde_json = "*"
tokio = { version = "*", features = ["macros", "rt", "time", "net"] }
axum = "*"
reqwest = { version = "*", default-features = false, features = ["json"] }
tracing = "*"
tracing-subscriber = "*"
