[package]
name = "f_lang"
version = "0.1.0"
edition = "2021"
publish = false

[dependencies]
thiserror = "*"
clap = { version = "*", features = ["derive"] }
