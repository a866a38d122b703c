[package]
name = "crypt3_rs"
version = "0.1.0"
edition = "2021"
publish = false

[dependencies]
rand = "0.9"
md-5 = "0.10"
sha1 = "0.10"
sha2 = "0.10"
bcrypt = "0.17"
