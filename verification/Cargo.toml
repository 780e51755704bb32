[package]
name = "shivacore"
version = "0.1.0"
edition = "2021"
publish = false

[dependencies]
spin = "=0.12.3"
bitflags = "=2.13.2"
lazy_static = "=1.5.1"
uart_16550 = "=0.9.0"
x86_64 = { version = "=0.15.5", default-features = false, features = ["instructions"] }
