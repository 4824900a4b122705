[package]
name = "clipsway"
version = "0.1.0"
edition = "2021"
publish = false

[dependencies]
clap = "2.33"
lazy_static = "1.4"
ron = "0.6"
serde = { version = "1", features = ["derive"] }
wl-clipboard-rs = "0.4"
