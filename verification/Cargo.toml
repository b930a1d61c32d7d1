[package]
name = "devenv-tasks"
version = "0.1.0"
edition = "2021"
publish = false

[dependencies]
base64 = "0.22"
fd-lock = "4"
ignore = "0.4"
miette = "7"
serde = { version = "1", features = ["derive"] }
serde_json = "1"
shell-escape = "0.1.5"
sqlx = { version = "0.8", default-features = false, features = ["runtime-tokio", "sqlite"] }
tempfile = "3"
tokio = { version = "1", features = ["fs", "macros", "process", "rt", "sync", "time"] }
tokio-util = "0.7"
tracing = "0.1"
