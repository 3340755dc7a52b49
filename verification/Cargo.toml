[package]
name = "misaki_rs"
version = "0.6.0"
edition = "2021"
publish = false

[dependencies]
log = "0.4"
num2words = "*"
regex = "1"
serde = { version = "1", features = ["derive"] }
thiserror = "2"
