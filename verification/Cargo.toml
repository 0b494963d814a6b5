[package]
name = "queue_delete"
version = "0.1.0"
edition = "2021"
publish = false

[dependencies]
bevy = { version = "=0.8.1", default-features = false }
crossbeam-channel = "=0.5.17"
parking_lot = "=0.12.5"
