[package]
name = "nftracker"
version = "0.1.0"
edition = "2021"
publish = false

[dependencies]
actix = "0.13"
actix-web = "4"
chrono = "0.4"
clap = "4"
env_logger = "0.11"
humantime-serde = "1"
log = "0.4"
rand = "0.8"
rand_distr = "0.4"
serde = "1"
serde_derive = "1"
toml = "0.8"
