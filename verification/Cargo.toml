[package]
name = "pruzkumnik"
version = "0.1.0"
edition = "2021"
publish = false

[dependencies]
crossterm = "*"
zip = { version = "*", default-features = false, features = ["deflate"] }
