[package]
name = "rsllm"
version = "0.5.5"
edition = "2021"
publish = false

[dependencies]
mpeg2ts-reader = "*"
scte35-reader = "*"
h264-reader = "*"
image = { version = "0.24", default-features = false, features = ["png"] }
imageproc = { version = "0.23", default-features = false }
rusttype = "0.9"
urlencoding = "2"
tokio = { version = "1", features = ["full"] }
reqwest = { version = "0.11", default-features = false, features = ["json", "rustls-tls"] }
serde = { version = "1", features = ["derive"] }
serde_json = "1"
bytes = "1"
log = "0.4"
env_logger = "*"
dotenv = "0.15"
clap = { version = "4", features = ["derive", "env"] }
chrono = "0.4"
uuid = { version = "1", features = ["v4"] }
hound = "3"
minimp3 = "0.5"
hex-slice = "*"
once_cell = "1"
tmi = "*"
anyhow = "1"
rand = "0.8"
