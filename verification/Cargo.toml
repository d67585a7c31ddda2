[package]
name = "cache_check"
version = "0.1.0"
edition = "2021"
publish = false

[dependencies]
anyhow = "1"
num_cpus = "1"
