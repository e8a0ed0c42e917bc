[package]
name = "tacitus"
version = "0.1.0"
edition = "2021"
publish = false

[dependencies]
axum = { version = "=0.8.9", features = ["ws"] }
base64 = "=0.22.1"
chrono = "=0.4.45"
hmac = "=0.12.1"
regex = "=1.13.1"
rmcp = { version = "1", features = ["server", "transport-io", "macros"] }
schemars = "=1.2.3"
serde = { version = "=1.0.229", features = ["derive"] }
serde_json = "=1.0.154"
serde_yaml = "=0.9.34"
sha2 = "=0.10.9"
tokio = { version = "=1.54.1", features = ["full"] }
toml = "=0.8.23"
tracing = "=0.1.44"
tracing-subscriber = "=0.3.23"
ureq = { version = "=3.5.1", features = ["json"] }
wasmtime = { version = "36", default-features = false, features = ["cranelift", "runtime", "std"] }
