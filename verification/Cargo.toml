[package]
name = "scalar_kalman"
version = "0.1.0"
edition = "2021"
publish = false

[dependencies]
anyhow = "1"
rand = "0.8"
rand_distr = "0.4"
thiserror = "1"
