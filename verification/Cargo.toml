[package]
name = "trouble-host"
version = "0.1.0"
edition = "2021"
publish = false

[dependencies]
bt-hci = "0.2"
heapless = "0.8"
rand_core = "0.6"
embedded-io = "0.6"
defmt = "0.3"
