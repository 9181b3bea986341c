[package]
name = "plexy"
version = "0.1.0"
edition = "2021"
publish = false

[dependencies]
rand = "0.8"
rustls = "0.20"
rustls-pemfile = "1"
webpki = "0.22"
webpki-roots = "0.22"
