[package]
name = "installer"
version = "0.1.0"
edition = "2021"
publish = false

[dependencies]
firefly-rust = { version = "=0.15.0", features = ["alloc"] }
firefly-types = "=0.11.3"
firefly-keyboard = "=0.1.4"
sha2 = "=0.11.1"
