[package]
name = "tizol"
version = "0.1.0"
edition = "2021"
publish = false

[dependencies]
apodize = "1.0"
hodges = "*"
image = "0.23"
num = "0.2"
prost = "0.6"
rayon = "1"
rustfft = "3.0"
scarlet = "1"
strider = "0.1"
