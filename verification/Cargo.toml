[package]
name = "libimagentrylink"
version = "0.1.0"
edition = "2021"
publish = false

[dependencies]
itertools = "*"
toml = "0.4"
url = "*"
clap = "2"
prettytable-rs = "*"
walkdir = "2"
hoedown = "*"
