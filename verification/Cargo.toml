[package]
name = "calc_lang"
version = "0.1.0"
edition = "2021"
publish = false

[dependencies]
ctrlc = "3"
nalgebra = "0.33"
