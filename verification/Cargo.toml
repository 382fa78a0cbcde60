[package]
name = "bpf_metrics"
version = "0.1.0"
edition = "2021"
publish = false

[dependencies]
anyhow = "*"
aya = "*"
aya-obj = "*"
