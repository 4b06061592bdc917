[package]
name = "gcli_nexus"
version = "0.1.0"
edition = "2021"
publish = false

[dependencies]
chrono = "*"
base64 = "*"
subtle = "*"
url = "*"
serde_json = "*"
serde = { version = "*", features = ["derive"] }
tokio = { version = "*", features = ["rt-multi-thread", "macros", "sync", "time", "net"] }
axum = "*"
reqwest = { version = "*", default-features = false, features = ["json"] }
sqlx = { version = "*", default-features = false, features = ["sqlite", "runtime-tokio"] }
governor = "*"
backon = "*"
