[package]
name = "kvs"
version = "0.1.0"
edition = "2021"
publish = false

[dependencies]
anyhow = "1"
bincode = "1"
byteorder = "1"
bytes = "0.5"
chrono = { version = "0.4", features = ["serde"] }
crc32fast = "1"
http = "0.2"
hyper = "0.13"
mime = "0.3"
serde = { version = "1", features = ["derive"] }
serde_json = "1"
structopt = "0.3"
thiserror = "1"
tokio = { version = "0.2", features = ["full"] }
tracing = "0.1"
tracing-subscriber = "0.2"
url = "2"
uuid = { version = "0.8", features = ["v4", "serde"] }
