[package]
name = "smtp2cf"
version = "0.1.0"
edition = "2021"
publish = false

[dependencies]
anyhow = "1"
base64 = "=0.22.1"
mailparse = "=0.16.1"
reqwest = { version = "=0.12.28", default-features = false, features = ["json", "rustls-tls"] }
rustls = "=0.23.46"
rustls-pemfile = "=2.2.0"
serde = { version = "1", features = ["derive"] }
serde_json = "1"
smtpd = { version = "=0.1.0", features = ["rustls-backend"] }
tokio = { version = "1", features = ["full"] }
toml = "*"
tracing = "0.1"
