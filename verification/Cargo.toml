[package]
name = "bili_shadowreplay"
version = "0.1.0"
edition = "2021"
publish = false

[dependencies]
sha1 = "=0.10.7"
md5 = "=0.7.0"
sanitize-filename = "*"
serde = { version = "=1.0.229", features = ["derive"] }
serde_json = "=1.0.154"
toml = "=0.8.23"
tokio = { version = "=1.54.1", features = ["fs", "io-util", "time", "process", "macros", "rt", "sync", "net"] }
reqwest = { version = "=0.12.28", default-features = false, features = ["json", "multipart"] }
prost = "=0.13.5"
base64 = "=0.22.1"
uuid = { version = "=1.29.0", features = ["v4"] }
chrono = "=0.4.45"
srtparse = "=0.2.0"
log = "=0.4.35"
futures = "=0.3.34"
tokio-tungstenite = "=0.26.2"
async-trait = "=0.1.92"
hound = "=3.5.1"
