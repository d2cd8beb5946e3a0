[package]
name = "xtrace"
version = "0.1.0"
edition = "2021"
publish = false

[dependencies]
serde_json = "*"
base64 = "*"
flate2 = "*"
axum = "*"
tokio = { version = "*", features = ["rt-multi-thread", "macros", "sync", "signal", "net", "time"] }
serde = { version = "*", features = ["derive"] }
uuid = { version = "*", features = ["serde"] }
chrono = { version = "*", features = ["serde"] }
bytes = "*"
hex = "*"
prost = "*"
opentelemetry-proto = { version = "*", features = ["gen-tonic-messages", "trace"] }
