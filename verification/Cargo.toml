[package]
name = "pulsar_core"
version = "0.1.0"
edition = "2021"
publish = false

[dependencies]
whoami = "1.5"
serde = { version = "1", features = ["derive"] }
serde_json = "1"
anyhow = "1"
libc = "0.2"
tracing = "0.1"
tokio = { version = "1", features = ["rt", "time"] }
ashpd = { version = "0.9", default-features = false, features = ["tokio"] }
gstreamer = "0.23"
gstreamer-video = "0.23"
