[package]
name = "usbip_tools"
version = "0.1.0"
edition = "2021"
publish = false

[dependencies]
anyhow = "1"
axum = "0.7"
clap = { version = "4", features = ["derive"] }
get_if_addrs = "0.5"
hostname = "0.4"
iced = { version = "0.12", default-features = false, features = ["tokio"] }
libc = "0.2"
mime_guess = "2"
serde = { version = "1", features = ["derive"] }
serde_json = "1"
tokio = { version = "1", features = ["full"] }
tokio-stream = { version = "0.1", features = ["sync"] }
tower-http = { version = "0.5", features = ["trace"] }
tracing = "0.1"
tracing-subscriber = { version = "0.3", features = ["env-filter"] }
udev = "0.9"
uuid = { version = "1", features = ["v4", "serde"] }
