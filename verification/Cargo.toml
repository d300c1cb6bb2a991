[package]
name = "pow_chain"
version = "0.1.0"
edition = "2021"
publish = false

[dependencies]
ring = "0.16"
hex = "0.4"
chrono = "0.4"
bincode = "1"
serde = { version = "1", features = ["derive"] }
crossbeam = "0.8"
