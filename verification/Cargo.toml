[package]
name = "tbol_island"
version = "0.1.0"
edition = "2021"
publish = false

[dependencies]
ghx_grid = "*"
mlua = { version = "*", features = ["luau"] }
path-security = "*"
