[package]
name = "multiqueue"
version = "0.1.0"
edition = "2021"

[dependencies]
crossbeam = "0.2"
futures = "0.1"
parking_lot = "0.9"
smallvec = "0.6"
time = "0.1"
