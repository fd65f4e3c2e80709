[package]
name = "toml2lua"
version = "0.1.0"
edition = "2021"

[dependencies]
indexmap = { version = "*", features = ["serde"] }
toml = { version = "*", features = ["preserve_order"] }
