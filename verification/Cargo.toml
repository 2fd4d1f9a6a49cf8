[package]
name = "uuid_service"
version = "0.1.0"
edition = "2021"
publish = false

[dependencies]
futures = "0.3"
nanoid = "0.4"
prost = "0.12"
prost-types = "0.12"
serde = { version = "1", features = ["derive"] }
serde_yaml = "0.9"
thiserror = "1"
tokio = { version = "1", features = ["macros", "rt-multi-thread", "sync"] }
tokio-stream = "0.1"
tonic = "0.11"
tonic-reflection = "0.11"
