[package]
name = "big_num_manager"
version = "0.1.0"
edition = "2021"
publish = false

[dependencies]
num-bigint = "*"
serde = "*"
