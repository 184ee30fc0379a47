[package]
name = "flv"
version = "0.1.0"
edition = "2021"
publish = false

[dependencies]
oxideav-core = "0.1"
