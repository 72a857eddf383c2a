[package]
name = "ledband"
version = "0.1.0"
edition = "2021"
publish = false

[dependencies]
bus = "*"
codepage-437 = "*"
crossbeam = "*"
smart-leds = "*"
