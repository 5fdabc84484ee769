[package]
name = "scarlet_youtube"
version = "0.1.0"
edition = "2021"
publish = false

[dependencies]
getrandom = { version = "0.2", features = ["custom"] }
rustls = { version = "0.23", default-features = false, features = ["ring"] }
