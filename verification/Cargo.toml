[package]
name = "marlin_driver"
version = "0.1.0"
edition = "2021"
publish = false
