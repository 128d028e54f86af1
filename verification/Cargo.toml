[package]
name = "route_regexp"
version = "0.1.0"
edition = "2021"
publish = false

[dependencies]
regex = "*"
percent-encoding = "*"
