[package]
name = "ysos_core"
version = "0.1.0"
edition = "2021"
publish = false

[dependencies]
crossbeam-queue = "0.3"
spin = "0.9"
log = "0.4"
