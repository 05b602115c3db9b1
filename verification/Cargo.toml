[package]
name = "multipane"
version = "0.1.0"
edition = "2021"
publish = false

[dependencies]
crossbeam-channel = "*"
syntect = { version = "*", default-features = false, features = ["default-themes", "dump-load"] }
termion = "*"
