[package]
name = "observe"
version = "0.1.0"
edition = "2021"
publish = false

[dependencies]
parking_lot = "0.12"
triomphe = "0.1"
thiserror = "2"
