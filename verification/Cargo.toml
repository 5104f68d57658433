[package]
name = "rvault"
version = "0.1.0"
edition = "2021"
publish = false

[dependencies]
totp-rs = { version = "5", features = ["otpauth"] }
walkdir = "2"
arboard = "3"
atty = "0.2"
bardecoder = "0.5"
clap = { version = "4", features = ["derive"] }
crossterm = "0.27"
dirs = "5"
image = "0.24"
inquire = "0.7"
