[package]
name = "display_text"
version = "0.1.0"
edition = "2021"

[dependencies]
bootloader_api = "*"
spin = "*"
