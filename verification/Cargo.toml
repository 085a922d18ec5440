[package]
name = "interns"
version = "0.1.0"
edition = "2021"
publish = false

[dependencies]
hashbrown = { version = "0.15", features = ["raw-entry"] }
