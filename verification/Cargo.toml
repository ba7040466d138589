[package]
name = "wake_pool"
version = "0.1.0"
edition = "2021"
publish = false

[dependencies]
futures = "0.3"
futures-task = "0.3"
parking_lot = "0.12"
