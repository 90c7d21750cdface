[package]
name = "bellperson"
version = "0.1.0"
edition = "2021"
publish = false

[dependencies]
paired = "*"
fff = "*"
groupy = "*"
rand_core = "0.5"
rayon = "*"
scoped_threadpool = "*"
core_affinity = "*"

[dev-dependencies]
rand = "0.7"
rand_xorshift = "0.2"
