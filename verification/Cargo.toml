[package]
name = "extended_matrix"
version = "0.1.0"
edition = "2021"
publish = false

[dependencies]
colsol = "*"
extended_matrix_float = "*"
