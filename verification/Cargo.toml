[package]
name = "sonata"
version = "0.1.0"
edition = "2021"
publish = false

[dependencies]
encoding_rs = "0.8"
md5 = "0.7"
clap = "2"
libpulse-binding = "2"
libpulse-simple-binding = "2"
