[package]
name = "entangled_net"
version = "0.1.0"
edition = "2021"
publish = false

[dependencies]
bitcode = "0.6"
eyre = "0.6"
rustc-hash = "2"
tangled = "*"
tracing = "0.1"
