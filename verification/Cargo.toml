[package]
name = "rescript_openapi"
version = "0.1.0"
edition = "2021"
publish = false

[dependencies]
anyhow = "*"
clap = { version = "*", features = ["derive"] }
heck = "*"
notify = "*"
openapiv3 = "*"
serde_json = "*"
serde_yaml = "*"
