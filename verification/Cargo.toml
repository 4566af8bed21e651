[package]
name = "eye_config"
version = "0.1.0"
edition = "2021"
publish = false

[dependencies]
serde_json = { version = "=1.0.151", features = ["preserve_order", "float_roundtrip"] }
chrono = "=0.4.45"
directories-next = "=2.0.0"
tokio = { version = "=1.53.2", features = ["rt-multi-thread", "macros", "fs"] }
clap = { version = "=4.6.7", features = ["derive"] }
eyre = "=0.6.14"
