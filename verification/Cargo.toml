[package]
name = "bindgen_plugin"
version = "0.1.0"
edition = "2021"
publish = false

[dependencies]
bindgen = "0.19"
clang-sys = "0.8"
