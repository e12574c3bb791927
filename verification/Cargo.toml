[package]
name = "disk_widget"
version = "0.1.0"
edition = "2021"
publish = false

[dependencies]
num-rational = { version = "0.2", default-features = false }
psutil = "3"
tui = { version = "0.8", default-features = false }
