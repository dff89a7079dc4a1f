[package]
name = "minehouse"
version = "0.1.0"
edition = "2021"
publish = false

[dependencies]
azalea-registry = "*"
azalea-inventory = "*"
uuid = { version = "1", features = ["v4", "serde"] }
serde = { version = "1", features = ["derive"] }
serde_json = "1"
anyhow = "1"
thiserror = "2"
tokio = { version = "1", features = ["full"] }
axum = "0.8"
sqlx = { version = "0.8", default-features = false, features = ["postgres", "runtime-tokio", "uuid", "json", "macros"] }
tracing = "0.1"
tracing-subscriber = "0.3"
dashmap = "6"
futures = "0.3"
tarpc = { version = "0.36", features = ["serde-transport", "serde-transport-bincode", "tcp"] }
oasgen = { version = "*", features = ["axum"] }
serde_yaml2 = "*"
enum_dispatch = "0.3"
