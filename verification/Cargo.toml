[package]
name = "devenv_cloud"
version = "0.1.0"
edition = "2021"
publish = false

[dependencies]
hex = "=0.4.3"
hmac = "=0.13.0"
serde = { version = "=1.0.229", features = ["derive"] }
serde_json = "=1.0.151"
sha2 = "=0.11.0"
tokio = { version = "=1.53.2", features = ["macros", "rt-multi-thread", "sync", "time", "io-util", "net", "signal"] }
uuid = { version = "=1.27.0", features = ["v4", "v7", "serde"] }
