[package]
name = "mgp"
version = "0.1.0"
edition = "2021"
publish = false

[dependencies]
base64 = "=0.21.7"
bytes = "=1.12.1"
chrono = "=0.4.45"
dashmap = "=5.5.3"
diesel = { version = "=2.3.14", default-features = false, features = ["postgres_backend", "uuid", "chrono", "serde_json", "32-column-tables"] }
diesel-derive-enum = { version = "=2.1.0", features = ["postgres"] }
eyre = "=0.6.14"
ffmpeg-next = "=9.0.0"
file-format = "=0.29.0"
futures-util = "=0.3.34"
image = { version = "=0.24.9", features = ["webp", "webp-encoder"] }
rand = "=0.8.8"
serde_json = "=1.0.151"
tokio = { version = "=1.53.2", features = ["full"] }
uuid = { version = "=1.27.0", features = ["v4"] }
warp = "=0.3.7"
webp = { version = "=0.2.6", default-features = false }
