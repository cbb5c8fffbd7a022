[package]
name = "package_inventory"
version = "0.1.0"
edition = "2021"
publish = false

[dependencies]
iced = { version = "0.3", features = ["svg"] }
