[package]
name = "sparrow"
version = "0.1.0"
edition = "2021"
publish = false

[dependencies]
chrono = "0.4"
async-std = "1"
log = "0.4"
env_logger = "*"
getopts = "0.2"
dotenv = "*"
