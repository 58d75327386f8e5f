[package]
name = "outline_trace"
version = "0.1.0"
edition = "2021"
publish = false

[dependencies]
plotters = "0.3"
rand = "0.8"
rand_distr = "0.4"
