[package]
name = "base64_helper"
version = "0.1.0"
edition = "2021"
publish = false

[dependencies]
base64 = "=0.13.1"
wasmer = "=2.3.0"
wasmer-wasi = "=2.3.0"
