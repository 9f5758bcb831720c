[package]
name = "blue_rs"
version = "0.1.0"
edition = "2021"
publish = false

[dependencies]
regex = "1"
unicode-normalization = "0.1"
serde = { version = "1", features = ["derive"] }
serde_json = "1"
anyhow = "1"
hound = "3"
ndarray = "*"
utoipa = "*"
espeak-rs = "*"
