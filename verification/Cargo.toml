[package]
name = "capture_store"
version = "0.1.0"
edition = "2021"
publish = false

[dependencies]
scru128 = "=4.2.0"
cacache = { version = "=13.1.0", default-features = false, features = ["async-std"] }
shlex = "=2.0.1"
serde = { version = "=1.0.229", features = ["derive"] }
serde_json = "=1.0.151"
hyper = { version = "=0.14.32", features = ["full"] }
tokio = { version = "=1.53.2", features = ["full"] }
futures = "=0.3.34"
