[package]
name = "crossbeam_channel"
version = "0.1.0"
edition = "2021"
publish = false

[dependencies]
futures = "0.1"
parking_lot = "*"
crossbeam = "0.3"
mpmc = "*"
