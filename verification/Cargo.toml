[package]
name = "goose"
version = "0.1.0"
edition = "2021"
publish = false

[dependencies]
agent-client-protocol = "=1.0.1"
anyhow = "=1.0.104"
cliclack = "=0.5.7"
console = "=0.16.6"
dirs = "=6.0.0"
etcetera = "=0.11.0"
regex = "=1.13.1"
rmcp = { version = "=1.7.0", features = ["server", "transport-io"] }
serde = { version = "=1.0.229", features = ["derive"] }
serde_json = "=1.0.154"
serde_yaml = "=0.9.34"
sha2 = "=0.10.9"
tokio = { version = "=1.54.1", features = ["full"] }
tokio-util = "=0.7.20"
tracing = "=0.1.44"
