[package]
name = "dashmap"
version = "0.1.0"
edition = "2021"
publish = false

[dependencies]
dashmap-shard = "*"
fxhash = "*"
num_cpus = "*"
parking_lot = "*"
