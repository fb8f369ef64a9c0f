[package]
name = "omfiles"
version = "0.1.0"
edition = "2021"
publish = false

[dependencies]
async-executor = "1"
async-lock = "3"
blocking = "1"
ndarray = "0.16"
num-traits = "0.2"
om-file-format-sys = "*"
ureq = "3"
