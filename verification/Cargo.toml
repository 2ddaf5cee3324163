[package]
name = "ecoji"
version = "0.1.0"
edition = "2021"
publish = false

[dependencies]
clap = "=4.6.7"

[dev-dependencies]
quickcheck = "=1.1.0"
