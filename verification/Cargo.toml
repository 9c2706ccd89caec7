[package]
name = "parallel_kernels"
version = "0.1.0"
edition = "2021"
publish = false

[dependencies]
rayon = "1"
clap = "2"
num_cpus = "1"
rand = "0.8"
crossbeam = "0.8"
