[package]
name = "rtsp_client"
version = "0.1.0"
edition = "2021"
publish = false

[dependencies]
base64 = "*"
digest_auth = "*"
log = "*"
tokio = { version = "*", features = ["rt", "net", "io-util", "sync", "macros", "time"] }
url = "*"
