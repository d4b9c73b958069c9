[package]
name = "display_presets"
version = "0.1.0"
edition = "2021"
publish = false

[dependencies]
clap = "*"
dbus = "*"
log = "*"
serde = { version = "*", features = ["derive"] }
serde_json = "*"
simple_logger = "*"
