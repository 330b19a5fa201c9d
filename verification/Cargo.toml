[package]
name = "mob"
version = "0.1.0"
edition = "2021"
publish = false

[dependencies]
slab = "0.3"
byteorder = "1"
mio = "0.6"
log = "0.4"
env_logger = "0.9"
