[package]
name = "dirsync"
version = "0.1.0"
edition = "2021"
publish = false

[dependencies]
regex = "*"
clap = "*"
log = "*"
simplelog = "*"
chrono = "*"
