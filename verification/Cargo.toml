[package]
name = "intel_ma"
version = "0.1.0"
edition = "2021"
publish = false

[dependencies]
clap = { version = "=4.6.7", features = ["derive"] }
md-5 = "=0.10.6"
sha2 = "=0.10.9"
num-bigint = "=0.4.8"
thiserror = "=2.0.21"
