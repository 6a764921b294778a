[package]
name = "udp_chat"
version = "0.1.0"
edition = "2021"
publish = false

[dependencies]
crossterm = { version = "0.27", default-features = false }
