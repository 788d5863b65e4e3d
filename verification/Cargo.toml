[package]
name = "sampara"
version = "0.1.0"
edition = "2021"
publish = false

[dependencies]
gcd = "2"
num-traits = "0.2"
thiserror = "1"
