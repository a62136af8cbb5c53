[package]
name = "bos"
version = "0.1.0"
edition = "2021"
publish = false

[dependencies]
bootloader = "=0.9.35"
crossbeam-queue = "=0.3.14"
futures-util = "=0.3.34"
pc-keyboard = "=0.7.0"
x86_64 = "=0.15.5"
