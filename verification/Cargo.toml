[package]
name = "rum"
version = "0.1.0"
edition = "2021"
publish = false

[dependencies]
rand = "0.8"
csc411_image = "*"
csc411_arith = "*"
csc411_rpegio = "*"
clap = { version = "*", features = ["derive"] }
