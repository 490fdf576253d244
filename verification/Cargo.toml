[package]
name = "rustman"
version = "0.1.0"
edition = "2021"
publish = false

[dependencies]
json = "*"
dirs = "*"
termcolor = "*"
http_req = { version = "*", default-features = false, features = ["rust-tls"] }
