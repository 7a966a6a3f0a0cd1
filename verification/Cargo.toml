[package]
name = "vector_extensions"
version = "0.1.0"
edition = "2021"
publish = false

[dependencies]
base64 = "=0.13.1"
hex = "=0.4.3"
md-5 = "=0.10.6"
chrono = { version = "=0.4.45", features = ["serde"] }
serde = { version = "=1.0.229", features = ["derive"] }
serde_json = "=1.0.154"
tokio = { version = "=1.54.1", features = ["fs", "io-util", "time", "macros", "sync", "rt"] }
prost = "=0.11.9"
aws-sdk-s3 = { version = "1", default-features = false }
azure_storage_blobs = { version = "0.21", default-features = false }
http = "0.2"
hyper = { version = "0.14", features = ["client", "http1", "http2", "tcp"] }
url = "2"
futures-util = "0.3"
tokio-util = { version = "0.7", features = ["time"] }
bytes = "1"

[dev-dependencies]
