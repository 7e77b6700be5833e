[package]
name = "uidgen"
version = "0.1.0"
edition = "2021"
publish = false

[dependencies]
rand = "*"
once_cell = "*"
sqlite-loadable = "*"
uuid = { version = "*", features = ["v4"] }
