[package]
name = "unordered_n_tuple"
version = "0.1.0"
edition = "2021"

[dependencies]
serde = "1"
