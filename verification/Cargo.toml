[package]
name = "rimecraft_core"
version = "0.1.0"
edition = "2021"
publish = false

[dependencies]
ahash = "0.8"
bytes = "1"
serde = { version = "1", features = ["derive"] }
glam = "0.29"
bitflags = "2"
uuid = "1"
typeid = "1"
erased-serde = "0.4"
parking_lot = "0.12"
crossbeam-channel = "0.5"
