[package]
name = "struqture_spins"
version = "0.1.0"
edition = "2021"
publish = false

[dependencies]
tinyvec = { version = "1", features = ["alloc"] }
num-complex = "0.4"
qoqo_calculator = "1"
serde = { version = "1", features = ["derive"] }
indexmap = "2"
itertools = "*"

[dev-dependencies]
serde_json = "1"
