[package]
name = "jarlid"
version = "0.2.3"
edition = "2021"
publish = false

[dependencies]
reqwest = { version = "0.12", default-features = false, features = ["json", "charset", "http2", "rustls-tls"] }
serde = { version = "1", features = ["derive"] }
serde_json = "1"
souvlaki = { version = "*", default-features = false, features = ["use_zbus"] }
tokio = { version = "1", features = ["sync", "time"] }
