[package]
name = "multithread_matrix"
version = "0.1.0"
edition = "2021"
publish = false

[dependencies]
rustc_apfloat = "=0.2.3"
rand = "=0.8.8"
rayon = "1"
