[package]
name = "llm_gateway"
version = "0.1.0"
edition = "2021"
publish = false

[dependencies]
serde_json = "*"
serde = { version = "*", features = ["derive"] }
serde_yaml = "*"
reqwest = { version = "*", default-features = false, features = ["json", "stream", "rustls-tls"] }
axum = "*"
tokio = { version = "*", features = ["rt", "macros", "net", "io-util", "sync", "time", "fs"] }
tokio-stream = "*"
futures-util = "*"
tracing = "*"
tracing-subscriber = "*"
tracing-opentelemetry = "*"
opentelemetry = "*"
opentelemetry_sdk = { version = "*", features = ["rt-tokio"] }
opentelemetry-otlp = { version = "*", features = ["grpc-tonic", "http-proto"] }
base64 = "*"

[dev-dependencies]
