[package]
name = "photon"
version = "0.1.0"
edition = "2021"
publish = false

[dependencies]
llvm-sys = "181"
binaryen-sys = "*"
