[package]
name = "small_apps"
version = "0.1.0"
edition = "2021"
publish = false

[dependencies]
sha2 = "0.10"
serde_json = "1"
rand = "0.9"
piston_window = "*"
