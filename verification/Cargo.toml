[package]
name = "pick_browser"
version = "0.1.0"
edition = "2021"
publish = false

[dependencies]
base64 = "*"
cuid2 = "*"
winreg = "*"
