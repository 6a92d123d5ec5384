[package]
name = "sawskas_profiler"
version = "0.1.0"
edition = "2021"
publish = false

[dependencies]
colored = "3"
crossterm = "0.29"
