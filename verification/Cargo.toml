[package]
name = "irig106-time"
version = "0.7.0"
edition = "2021"
publish = false

[dependencies]
chrono = "0.4"
memmap2 = "0.9"
serde = { version = "1", features = ["derive"] }
