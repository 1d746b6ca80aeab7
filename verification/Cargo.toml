[package]
name = "usmu"
version = "0.1.0"
edition = "2021"
publish = false

[dependencies]
anyhow = "*"
clap = { version = "*", features = ["derive"] }
csv = "*"
ndarray = "*"
serde = { version = "*", features = ["derive"] }
serialport = "*"
thiserror = "*"
uom = "*"
