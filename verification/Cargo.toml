[package]
name = "parallel"
version = "0.4.2"
edition = "2021"
publish = false

[dependencies]
num_cpus = "*"
permutate = "*"
smallvec = "*"
