[package]
name = "remoteio"
version = "0.1.0"
edition = "2021"
publish = false

[dependencies]
ringbuf = "0.2"
bincode = "1.3"
serde = { version = "1", features = ["derive"] }
cpal = "0.15"
tokio = { version = "1", features = ["net", "rt-multi-thread", "macros", "sync", "time"] }
tokio-tungstenite = "0.20"
futures = "0.3"
async-trait = "0.1"
