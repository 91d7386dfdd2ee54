[package]
name = "rodo"
version = "1.0.0"
edition = "2021"
publish = false

[dependencies]
clap = "=4.6.7"
log = "=0.4.34"
