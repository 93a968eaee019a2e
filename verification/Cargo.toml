[package]
name = "passay_rs"
version = "0.1.0"
edition = "2021"
publish = false

[dependencies]
fancy-regex = "=0.20.0"
rand = "=0.9.5"

[dev-dependencies]
base64 = "=0.22.1"
bcrypt = "=0.15.1"
sha1_smol = "=1.0.1"
