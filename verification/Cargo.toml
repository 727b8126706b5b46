[package]
name = "electrosim"
version = "0.1.0"
edition = "2021"
publish = false

[dependencies]
fastrand = "2"
ultraviolet = "0.9"
palette = "0.7"
once_cell = "1"
parking_lot = "0.12"
