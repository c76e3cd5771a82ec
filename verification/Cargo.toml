[package]
name = "shipper_release"
version = "0.1.0"
edition = "2021"
publish = false

[dependencies]
semver = "1"
chrono = "0.4"
clap = { version = "4", features = ["derive"] }
