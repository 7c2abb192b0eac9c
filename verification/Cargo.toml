[package]
name = "libax"
version = "0.1.0"
edition = "2021"
publish = false

[dependencies]
axerrno = "=0.1.2"
axio = "0.2"
flatten_objects = "0.2"
lazy_static = "=1.5.1"
spin = "=0.9.9"
smoltcp = "=0.9.1"
