[package]
name = "cloud_metadata"
version = "0.1.0"
edition = "2021"
publish = false

[dependencies]
woothee = "0.13"
url = "2"
flytrap = "0.2"
serde = { version = "1", features = ["derive"] }
serde_json = "1"
reqwest = { version = "0.12", default-features = false, features = ["json"] }
tokio = { version = "1", features = ["macros", "rt-multi-thread"] }
hostname = "0.4"
handlebars = "6"
anyhow = "1"
tracing = "0.1"
axum = { version = "0.7", default-features = false }
http = "1"
tower-service = "0.3"
wasi = "0.14"
