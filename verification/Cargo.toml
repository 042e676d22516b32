[package]
name = "vboo"
version = "0.1.0"
edition = "2021"
publish = false

[dependencies]
rayon = "=1.12.0"
rustc_apfloat = "=0.2.3+llvm-462a31f5a5ab"
ieee-apsqrt = "=0.1.1"
colored = "=2.2.0"
kendalls = "=1.0.0"
ndarray = "=0.15.6"
ndarray-npy = "=0.8.1"
rust-stemmers = "=1.2.0"
structopt = "=0.3.26"
unicode-segmentation = "=1.13.3"
webpage = "=2.0.1"
