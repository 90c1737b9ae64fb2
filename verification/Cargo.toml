[package]
name = "map_bench"
version = "0.1.0"
edition = "2021"
publish = false

[dependencies]
fnv = "=1.0.7"
fxhash = "=0.2.1"
hashbrown = "=0.17.1"
murmur3 = "=0.4.1"
rand = "=0.10.3"
