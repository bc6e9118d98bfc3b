[package]
name = "deployment_helper"
version = "0.1.0"
edition = "2021"
publish = false

[dependencies]
futures-lite = "2"
geo = "0.29"
rayon = "1"
serde = { version = "1", features = ["derive"] }
serde_json = "1"
