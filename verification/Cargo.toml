[package]
name = "metricpipe"
version = "0.1.0"
edition = "2021"
publish = false

[dependencies]
async-trait = "=0.1.92"
base64 = "=0.22.1"
chrono = "=0.4.45"
chrono-tz = "=0.10.4"
flate2 = "=1.1.10"
opentelemetry-proto = { version = "=0.32.0", default-features = false, features = ["gen-tonic-messages", "metrics", "with-serde"] }
reqwest = { version = "=0.12.28", default-features = false }
serde = "=1.0.229"
serde_json = "=1.0.154"
tokio = { version = "=1.54.1", features = ["rt", "sync", "time"] }
tracing = "=0.1.44"
