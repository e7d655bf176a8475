[package]
name = "real_kanban"
version = "0.1.0"
edition = "2021"
publish = false

[dependencies]
urlencoding = "*"
serde = { version = "*", features = ["derive"] }
serde_json = "*"
clap = { version = "*", features = ["derive"] }
dirs = "*"
hostname = "*"
anyhow = "*"
reqwest = { version = "*", default-features = false, features = ["blocking", "json"] }
axum = "*"
tokio = { version = "*", features = ["rt-multi-thread", "macros", "net"] }
dotenvy = "*"
tower = "*"
tower-http = { version = "*", features = ["cors"] }
tracing = "*"
tracing-subscriber = "*"
