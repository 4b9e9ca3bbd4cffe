[package]
name = "model_runner"
version = "0.1.0"
edition = "2021"
publish = false

[dependencies]
ansi_term = "=0.12.1"
clap = "=2.34.0"
ndarray-npy = "0.10"
tract-core = "=0.23.8"
tract-hir = "=0.23.8"
tract-pulse = "=0.23.8"
