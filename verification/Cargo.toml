[package]
name = "fb_console"
version = "0.1.0"
edition = "2021"
publish = false

[dependencies]
bootloader_api = "=0.11.17"
noto-sans-mono-bitmap = { version = "=0.3.2", features = ["unicode-specials"] }
x86_64 = { version = "=0.15.5", default-features = false, features = ["instructions"] }
