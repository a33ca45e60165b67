[package]
name = "radiolog"
version = "0.1.0"
edition = "2021"
publish = false

[dependencies]
clap = { version = "=4.6.7", features = ["derive"] }
csv = "=1.4.0"
ctrlc = "=3.5.2"
hex = "=0.4.3"
serialport = { version = "=4.10.1", default-features = false }
tracing = "=0.1.44"
tracing-subscriber = "=0.3.23"
