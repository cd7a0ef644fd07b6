[package]
name = "fuel_debugger"
version = "0.1.0"
edition = "2021"
publish = false

[dependencies]
clap = { version = "=3.2.25", features = ["derive"] }
cynic = { version = "=1.0.0", features = ["surf"] }
fuel-gql-client = "=0.8.0"
fuel-vm = { version = "=0.11.1", features = ["debug", "serde"] }
serde_json = "=1.0.154"
shellfish = { version = "=0.6.0", features = ["async", "tokio"] }
surf = { version = "=2.3.2", default-features = false }
tokio = { version = "=1.54.1", features = ["net", "io-util", "macros", "rt-multi-thread"] }
