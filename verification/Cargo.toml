[package]
name = "riddle"
version = "0.1.0"
edition = "2021"
publish = false

[dependencies]
syn = { version = "2", features = ["full"] }
windows-core = "0.52"
windows-targets = "0.52"
