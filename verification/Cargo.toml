[package]
name = "order_performance"
version = "0.1.0"
edition = "2021"
publish = false

[dependencies]
alloy = { version = "=2.5.0", default-features = false, features = ["serde", "std"] }
chrono = "=0.4.45"
serde = { version = "=1.0.229", features = ["derive"] }
thiserror = "=2.0.21"
