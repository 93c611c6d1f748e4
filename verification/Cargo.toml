[package]
name = "rust_key_box"
version = "0.1.0"
edition = "2021"
publish = false

[dependencies]
base64ct = { version = "1", features = ["alloc"] }
chrono = "0.4"
copypasta = "*"
home = "*"
rand = "0.8"
rand_pwd = "*"
rsa = { version = "0.8", features = ["pem", "pkcs5"] }
scanpw = "*"
serde = { version = "1", features = ["derive"] }
serde_json = "1"
