[package]
name = "mill"
version = "0.1.0"
edition = "2021"
publish = false

[dependencies]
bincode = "1.3"
serde = { version = "1", features = ["derive"] }
parking_lot = "0.12"
log = "0.4"
