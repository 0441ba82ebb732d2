[package]
name = "mpv_websocket"
version = "0.1.0"
edition = "2021"
publish = false

[dependencies]
clap = { version = "4", features = ["derive"] }
mio = { version = "1", features = ["os-poll", "net", "os-ext"] }
serde = { version = "1", features = ["derive"] }
serde_json = "1"
tracing = "0.1"
tracing-appender = "0.2"
tracing-subscriber = "0.3"
tungstenite = "*"
