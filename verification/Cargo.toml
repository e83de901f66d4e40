[package]
name = "routefinder"
version = "0.1.0"
edition = "2021"
publish = false

[dependencies]
libm = "0.2"
lz4 = "1"
rand = "0.8"
rlua = "0.19"
structopt = "0.3"
