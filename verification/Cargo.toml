[package]
name = "nova"
version = "0.1.0"
edition = "2021"
publish = false

[dependencies]
ariadne = "=0.4.1"
clap = { version = "=4.6.7", features = ["derive"] }
colored = "=2.2.0"
notify = "6"
