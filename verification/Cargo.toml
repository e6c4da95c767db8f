[package]
name = "vangers"
version = "0.1.0"
edition = "2021"
publish = false

[dependencies]
byteorder = "=1.5.0"
rayon = "=1.12.0"
serde = { version = "=1.0.229", features = ["derive"] }
ron = "=0.12.2"
obj = "=0.10.2"
