[package]
name = "module_loader"
version = "0.1.0"
edition = "2021"
publish = false

[dependencies]
bumpalo = { version = "=3.20.3", features = ["collections"] }
crossbeam = "=0.8.5"
num_cpus = "=1.17.0"
