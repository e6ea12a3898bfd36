[package]
name = "bond"
version = "0.1.0"
edition = "2021"
publish = false

[dependencies]
serde = { version = "1", features = ["derive"] }
serde_json = "1"
toml = "*"
tokio = { version = "1", features = ["full"] }
reqwest = { version = "*", default-features = false, features = ["rustls-tls"] }
html2text = "*"
axum = { version = "*", features = ["ws"] }
futures-util = "0.3"
