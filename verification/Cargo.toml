[package]
name = "mixnet"
version = "0.1.0"
edition = "2021"
publish = false

[dependencies]
arrayvec = "0.7"
bitflags = "1.3"
log = "0.4"
multiaddr = "0.19"
rand = "0.8"
rand_distr = "0.4"
thiserror = "1.0"
