[package]
name = "epwing"
version = "0.1.0"
edition = "2021"
publish = false

[dependencies]
encoding_rs = "*"
unicode_hfwidth = "*"
