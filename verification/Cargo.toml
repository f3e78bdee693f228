[package]
name = "text_encode"
version = "0.1.0"
edition = "2021"

[dependencies]
base64 = "*"
num-bigint = "*"
num-traits = "*"
