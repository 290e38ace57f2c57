[package]
name = "ecs_core"
version = "0.1.0"
edition = "2021"
publish = false

[dependencies]
rand = "*"
anyhow = "*"
thiserror = "*"
crossbeam-channel = "*"
parking_lot = "*"
uuid = { version = "*", features = ["v4"] }
ron = "*"
serde = { version = "*", features = ["derive"] }
