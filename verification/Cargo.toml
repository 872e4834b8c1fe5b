[package]
name = "luau_lad_backend"
version = "0.1.0"
edition = "2021"
publish = false

[dependencies]
ladfile = "=0.19.0"
log = "0.4"
