[package]
name = "rotating_file"
version = "0.1.0"
edition = "2021"
publish = false

[dependencies]
chrono = "=0.4.45"
flate2 = "=1.1.10"
js-sys = "=0.3.107"
tap = "=1.0.1"
thiserror = "=1.0.69"
tracing = "=0.1.44"
