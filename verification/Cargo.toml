[package]
name = "chat_relay"
version = "0.1.0"
edition = "2021"
publish = false

[dependencies]
anyhow = "*"
blake3 = "*"
chrono = "*"
clap = { version = "*", features = ["derive"] }
futures-util = "*"
jwt-compact = "*"
local-ip-address = "*"
rustls = { version = "*", default-features = false, features = ["ring", "std", "logging", "tls12"] }
rustls-pemfile = "*"
serde = { version = "*", features = ["derive"] }
serde_json = "*"
tokio = { version = "*", features = ["rt-multi-thread", "net", "sync", "macros", "signal", "io-util"] }
tokio-rustls = { version = "*", default-features = false, features = ["ring", "logging", "tls12"] }
tokio-tungstenite = "*"
uuid = { version = "*", features = ["v4"] }
