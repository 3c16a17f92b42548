[package]
name = "argmin_testfunctions"
version = "0.1.0"
edition = "2021"
publish = false

[dependencies]
num = "0.4"
num-complex = "0.4"

[dev-dependencies]
approx = "0.5"
finitediff = "0.1"
