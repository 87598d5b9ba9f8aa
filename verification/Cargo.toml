[package]
name = "bpx"
version = "0.1.0"
edition = "2021"
publish = false

[dependencies]
once_cell = "=1.21.4"
miniz_oxide = "=0.9.1"
xz2 = "=0.1.7"
