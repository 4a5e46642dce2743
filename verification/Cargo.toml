[package]
name = "deepseek_chess"
version = "0.1.0"
edition = "2021"
publish = false

[dependencies]
chess = "3"
serde = { version = "1", features = ["derive"] }
serde_json = "1"
log = "0.4"
futures-util = "0.3"
tokio = { version = "1", features = ["rt-multi-thread", "macros"] }
reqwest = { version = "0.12", default-features = false, features = ["json", "stream", "rustls-tls"] }
image = { version = "0.25", default-features = false, features = ["png"] }
