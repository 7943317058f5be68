[package]
name = "temper_game"
version = "0.1.0"
edition = "2021"
publish = false

[dependencies]
arrayvec = "0.7"
rand = "=0.9.5"
rustc-hash = "=2.1.3"
uuid = "=1.29.0"
