[package]
name = "lib4bottle"
version = "0.1.0"
edition = "2021"
publish = false

[dependencies]
bytes = "0.4"
futures = "0.1"
lazy_static = "1"
