[package]
name = "count_min"
version = "0.1.0"
edition = "2021"
publish = false

[dependencies]
ndarray = "0.15"
fasthash = "0.4"
rand = "0.8"
rand_distr = "0.4"
serde_json = "1"
