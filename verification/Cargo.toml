[package]
name = "sqlwire"
version = "0.1.0"
edition = "2021"
publish = false

[dependencies]
anyhow = "=1.0.104"
base64 = "=0.21.7"
bytes = "=1.12.1"
fallible-iterator = "=0.2.0"
fn-error-context = "=0.2.1"
postgres-protocol = "=0.6.5"
postgres-types = "=0.2.5"
scram = "=0.6.0"
serde = { version = "=1.0.229", features = ["derive"] }
tracing = "=0.1.44"
url = "=2.5.8"
