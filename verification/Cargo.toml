[package]
name = "fw_lights"
version = "0.1.0"
edition = "2021"
publish = false

[dependencies]
color-eyre = "=0.6.5"
eyre = "=0.6.14"
framework_lib = { version = "=0.6.6", default-features = false }
humantime = "=2.4.0"
humantime-serde = "=1.1.1"
itertools = "=0.14.0"
serde = { version = "=1.0.229", features = ["derive"] }
serialport = { version = "=4.10.1", default-features = false }
smallvec = "=1.16.4"
toml = "=0.8.23"
tracing = "=0.1.44"
