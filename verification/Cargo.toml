[package]
name = "reo_rs"
version = "0.1.0"
edition = "2021"
publish = false

[dependencies]
hashbrown = "*"
itertools = "*"
smallvec = "*"
crossbeam = "*"
parking_lot = "*"
std-semaphore = "*"
rand = "0.8"
