[package]
name = "edit_history"
version = "0.1.0"
edition = "2021"
publish = false

[dependencies]
gix = "=0.88.0"
chrono = { version = "=0.4.45", features = ["unstable-locales"] }
serde = { version = "=1.0.229", features = ["derive"] }
toml = "=1.1.7"
minijinja = "=2.24.0"
