[package]
name = "please"
version = "0.1.0"
edition = "2021"
publish = false

[dependencies]
unicode-ident = "*"
serde_json = "*"
serde = { version = "*", features = ["derive"] }
postcard = { version = "*", features = ["alloc"] }
time = { version = "*", features = ["local-offset", "formatting"] }
