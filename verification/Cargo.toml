[package]
name = "pgs_rs"
version = "0.1.0"
edition = "2021"
publish = false

[dependencies]
yuv = "=0.8.19"
image = { version = "=0.25.10", default-features = false, features = ["png"] }
ctrlc = "=3.5.2"
tempdir = "=0.3.7"
thiserror = "=2.0.21"

[dev-dependencies]
winnow = "=1.0.4"
