[package]
name = "scrubcsv"
version = "1.0.0"
edition = "2021"
publish = false

[dependencies]
regex = "1"
csv = "1"
structopt = "0.3"
humansize = "1"
time = "0.3"
