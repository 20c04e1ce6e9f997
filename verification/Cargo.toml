[package]
name = "flowsurface"
version = "0.1.0"
edition = "2021"
publish = false

[dependencies]
rustc-hash = "2.1"
serde = { version = "1", features = ["derive"] }
serde_json = "1"
log = "0.4"
rust-i18n = "3"
