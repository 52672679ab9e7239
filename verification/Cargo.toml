[package]
name = "chain_store"
version = "0.1.0"
edition = "2021"
publish = false

[dependencies]
byteorder = "1"
bytes = "1"
hex = "0.4"
log = "0.4"
num_cpus = "1"
prost = "0.13"
rand = "0.8"
rocksdb = "0.23"
