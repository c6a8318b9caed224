[package]
name = "guardrails_orchestrator"
version = "0.1.0"
edition = "2021"
publish = false

[dependencies]
async-trait = "=0.1.92"
axum = "=0.7.9"
futures = "=0.3.34"
ginepro = "=0.8.2"
hyper = "=1.12.0"
prost = "=0.13.5"
reqwest = { version = "=0.12.28", default-features = false, features = ["json", "rustls-tls"] }
serde = { version = "=1.0.229", features = ["derive"] }
tokio = { version = "=1.54.1", features = ["fs", "io-util", "macros", "rt", "rt-multi-thread", "sync"] }
tonic = { version = "=0.12.3", features = ["tls", "tls-native-roots", "tls-webpki-roots"] }
tracing = "=0.1.44"
url = "=2.5.8"
