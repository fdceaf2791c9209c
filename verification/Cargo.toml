[package]
name = "pulse_vm"
version = "0.1.0"
edition = "2021"
publish = false

[dependencies]
rand = "=0.8.8"
ring = "=0.17.14"
parking_lot = "=0.12.5"
uuid = { version = "=1.29.0", features = ["v4"] }
regex = "=1.13.1"
bincode = "=1.3.3"
serde_json = "=1.0.154"
chrono = "=0.4.45"
nalgebra = "0.33"
csv = "1"
