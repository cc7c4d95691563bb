[package]
name = "sediment"
version = "0.1.0"
edition = "2021"
publish = false

[dependencies]
async-trait = "=0.1.92"
chrono = { version = "=0.4.45", features = ["serde"] }
clap = { version = "=4.6.7", features = ["derive"] }
cpal = "=0.18.2"
fastembed = { version = "=7.5.0", default-features = false }
futures = "=0.3.34"
gline-rs = "=1.1.0"
hound = "=3.5.1"
ollama-rs = { version = "=0.2.6", default-features = false, features = ["stream"] }
orp = "=1.0.0"
reqwest = { version = "=0.12.28", default-features = false, features = ["json", "stream"] }
rmcp = { version = "=3.8.0", features = ["server", "transport-io"] }
serde = { version = "=1.0.229", features = ["derive"] }
serde_json = "=1.0.154"
sherpa-onnx = "=2.0.1"
sysinfo = "=0.40.1"
tokio = { version = "=1.54.1", features = ["full"] }
tokio-util = "=0.7.20"
tracing = "=0.1.44"
uuid = { version = "=1.29.0", features = ["v4"] }
walkdir = "=2.5.0"
