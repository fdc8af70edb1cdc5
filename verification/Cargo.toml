[package]
name = "vigilator"
version = "0.1.0"
edition = "2021"
publish = false

[dependencies]
axum = "0.8"
bincode = "2"
once_cell = "1"
pyo3 = "0.23"
serde = { version = "1", features = ["derive"] }
serde_json = "1"
sqlx = { version = "0.8", default-features = false, features = ["sqlite", "runtime-tokio"] }
time = "0.3"
tokio = { version = "1", features = ["rt-multi-thread", "net", "macros"] }
uuid = { version = "1", features = ["v4"] }
