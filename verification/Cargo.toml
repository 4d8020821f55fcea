[package]
name = "mco_redis"
version = "0.1.0"
edition = "2021"
publish = false

[dependencies]
cogo = "*"
mco = "*"
either = "1"
derive_more = "0.99"
log = "0.4"
