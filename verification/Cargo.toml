[package]
name = "coro_core"
version = "0.1.0"
edition = "2021"
publish = false

[dependencies]
http = "*"
crossbeam = "*"
parking_lot = "*"
once_cell = "*"
log = "*"
