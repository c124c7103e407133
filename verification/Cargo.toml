[package]
name = "lotsa"
version = "0.1.0"
edition = "2021"
publish = false

[dependencies]
roaring = "*"
flate2 = "*"
actix = "*"
actix-web = "*"
actix-files = "*"
actix-web-actors = "*"
log = "*"
pretty_env_logger = "*"
