[package]
name = "pagepress"
version = "0.1.0"
edition = "2021"
publish = false

[dependencies]
anyhow = "1"
axum = "0.7"
fs_extra = "1"
hex = "0.4"
http = "1"
http-body-util = "0.1"
minijinja = { version = "2", features = ["loader"] }
minijinja-autoreload = "2"
serde = { version = "1", features = ["derive"] }
serde_json = "1"
time = { version = "0.3", features = ["serde", "formatting"] }
tokio = { version = "1", features = ["macros", "rt-multi-thread", "net"] }
tower-http = { version = "0.5", features = ["fs"] }
tower-service = "0.3"
tracing = "0.1"
tracing-subscriber = "0.3"
