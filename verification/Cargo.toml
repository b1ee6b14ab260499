[package]
name = "jsbytecode"
version = "0.1.0"
edition = "2021"
publish = false

[dependencies]
oxc_ast = "=0.139.0"
