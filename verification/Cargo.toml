[package]
name = "rooster"
version = "0.1.0"
edition = "2021"
publish = false

[dependencies]
byteorder = "1"
getopts = "0.2"
libc = "0.2"
quale = "1"
rand = "0.8"
rpassword = "5"
rust-crypto = "0.2.36"
serde = { version = "1", features = ["derive"] }
serde_json = "1"
shell-escape = "0.1"
