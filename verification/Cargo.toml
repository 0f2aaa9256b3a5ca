[package]
name = "migrassist"
version = "0.1.0"
edition = "2021"
publish = false

[dependencies]
csv = "1"
encoding_rs = "0.8"
serde = { version = "1", features = ["derive"] }
serde_json = "1"
tokio = { version = "1", features = ["rt"] }
