[package]
name = "elliptic_curve"
version = "0.1.0"
edition = "2021"
publish = false
