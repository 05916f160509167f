[package]
name = "checkni"
version = "0.1.0"
edition = "2021"
publish = false

[dependencies]
md-5 = "=0.10.6"
roxmltree = "=0.21.1"
walkdir = "=2.5.0"
zip-extensions = "*"
