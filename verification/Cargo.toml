[package]
name = "tf_buffer"
version = "0.1.0"
edition = "2021"
publish = false

[dependencies]
nalgebra = "*"
parking_lot = "*"
chrono = "0.4"
thiserror = "*"

[dev-dependencies]
rand = "0.8"
