[package]
name = "sfmp"
version = "0.1.0"
edition = "2021"
publish = false

[dependencies]
clap = { version = "3.2", features = ["derive"] }
indicatif = "0.17"
linfa = "0.6"
linfa-clustering = "0.6"
linfa-nn = "0.6"
ndarray = "0.15"
onnxruntime = "0.0.14"
opencv = "*"
rand_xoshiro = "0.6"
