[package]
name = "enhanced_des"
version = "0.1.0"
edition = "2021"
publish = false

[dependencies]
atty = "*"
clap = "*"
rand = "*"
sha2 = "*"
