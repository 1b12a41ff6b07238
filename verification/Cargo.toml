[package]
name = "tinhir"
version = "0.1.0"
edition = "2021"
publish = false

[dependencies]
anyhow = "1"
nom = "7"
thiserror = "1"
