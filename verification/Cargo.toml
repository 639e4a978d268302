[package]
name = "comfy_breakout"
version = "0.1.0"
edition = "2021"
publish = false
