[package]
name = "checker_rs"
version = "0.1.0"
edition = "2021"
publish = false

[dependencies]
wasmtime = "=46.0.3"
wasmtime-wasi = "=46.0.3"
clap = "=4.6.7"
