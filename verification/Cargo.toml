[package]
name = "git_together"
version = "0.1.0"
edition = "2021"
publish = false

[dependencies]
git2 = "*"
tempfile = "*"
