[package]
name = "wsrx_desktop"
version = "0.1.0"
edition = "2021"
publish = false

[dependencies]
rand = "=0.8.8"
image = { version = "=0.25.10", default-features = false, features = ["png"] }
serde = { version = "=1.0.229", features = ["derive"] }
serde_json = "=1.0.154"
toml = "=0.8.23"
directories = "=5.0.1"
rustls = { version = "=0.23.46", features = ["ring"] }
tokio = { version = "1", features = ["net", "fs"] }
