[package]
name = "tazui"
version = "0.1.0"
edition = "2021"
publish = false

[dependencies]
taz = "=1.0.0"
crossterm = "=0.29.0"
