[package]
name = "ukebox"
version = "0.9.1"
edition = "2021"
publish = false

[dependencies]
petgraph = "0.6"
clap = { version = "3.2", features = ["derive"] }
thiserror = "1"
itertools = "0.10"
lazy_static = "1"
structopt = "0.3"
regex = "1"
