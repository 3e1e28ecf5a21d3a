[package]
name = "hexstack"
version = "0.1.0"
edition = "2021"
publish = false

[dependencies]
rand = "=0.8.8"
itertools = "=0.13.0"
macroquad = "=0.4.16"
futures = "=0.3.34"
indicatif = "=0.17.11"
circular-buffer = "=1.2.1"
