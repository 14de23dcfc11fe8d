[package]
name = "read_write_store"
version = "0.1.0"
edition = "2021"
publish = false

[dependencies]
crossbeam-queue = "0.3"
crossbeam-utils = "0.8"
parking_lot = "0.12"
