[package]
name = "sim_systems"
version = "0.1.0"
edition = "2021"
publish = false

[dependencies]
hecs = "0.10"
rand = "0.8"
log = "0.4"
