[package]
name = "rastersong"
version = "0.1.0"
edition = "2021"
publish = false

[dependencies]
anyhow = "1"
base64 = "0.22"
crossbeam = "0.8"
dashmap = "6"
ffmpeg-next = "7"
gstreamer = "0.23"
gstreamer-app = "0.23"
gstreamer-video = "0.23"
hound = "3"
serde = { version = "1", features = ["derive"] }
uuid = { version = "1", features = ["v4"] }
