[package]
name = "proka_kernel"
version = "0.1.0"
edition = "2021"
publish = false

[dependencies]
x86_64 = { version = "=0.15.5", default-features = false, features = ["instructions"] }
spin = "=0.9.9"
lazy_static = "=1.5.1"
pc-keyboard = "=0.7.0"
ringbuf = "=0.4.8"
