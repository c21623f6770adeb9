[package]
name = "rs_tracer"
version = "0.1.0"
edition = "2021"

[dependencies]
rand = "0.8"
rayon = "1"
image = "0.24"
