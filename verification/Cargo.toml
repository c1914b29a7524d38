[package]
name = "mclib"
version = "0.1.0"
edition = "2021"
publish = false

[dependencies]
csv = "1"
nalgebra = "0.33"
num-complex = "0.4"
num-traits = "0.2"
rustfft = "6"
serde = { version = "1", features = ["derive"] }
thiserror = "2"
