[package]
name = "ice40"
version = "0.1.0"
edition = "2021"
publish = false

[dependencies]
embedded-hal = "1"
log = "0.4"
