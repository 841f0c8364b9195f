[package]
name = "dscale"
version = "0.1.0"
edition = "2021"
publish = false

[dependencies]
rand = "0.9"
rand_distr = "0.5"
priority-queue = "2"
bytes = "1"
indicatif = "0.17"
log = "0.4"
env_logger = "0.11"
rayon = "1"
