[package]
name = "dm_analyser"
version = "0.1.0"
edition = "2021"
publish = false

[dependencies]
anyhow = "*"
chrono = "*"
clipboard-rs = "*"
crossterm = "*"
fxhash = "*"
image = { version = "*", default-features = false, features = ["png"] }
itertools = "*"
num-format = "*"
num-traits = "*"
parking_lot = "*"
serde = { version = "*", features = ["derive"] }
serde_json = "*"
serde-this-or-that = "*"
