[package]
name = "ws_reactor"
version = "0.1.0"
edition = "2021"
publish = false

[dependencies]
http-muncher = "=0.2.5"
mio = "=0.5.1"
rustc-serialize = "=0.3.25"
sha1 = "=0.1.1"
