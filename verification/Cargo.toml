[package]
name = "proxy_m365_write"
version = "0.1.0"
edition = "2021"
publish = false

[dependencies]
openssl = "0.10"
serde = { version = "1", features = ["derive"] }
serde_json = "1"
hyper = { version = "1", features = ["server", "http1"] }
hyper-util = { version = "0.1", features = ["tokio"] }
http-body-util = "0.1"
bytes = "1"
tokio = { version = "1", features = ["macros", "rt-multi-thread", "net"] }
reqwest = { version = "0.12", features = ["native-tls"] }
