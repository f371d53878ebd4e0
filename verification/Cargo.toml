[package]
name = "fzf_keys"
version = "0.1.0"
edition = "2021"
publish = false

[dependencies]
kdl = "*"
clap = { version = "*", features = ["derive"] }
pyo3 = "*"
