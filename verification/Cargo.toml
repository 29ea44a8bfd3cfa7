[package]
name = "lorawanwiz"
version = "0.1.0"
edition = "2021"
publish = false

[dependencies]
aes = "0.8"
cmac = "0.7"
serde = { version = "1", features = ["derive"] }
ron = "*"
rustfft = "6"
