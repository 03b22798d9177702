[package]
name = "forge_deploy"
version = "0.1.0"
edition = "2021"
publish = false

[dependencies]
clap = { version = "*", features = ["derive"] }
handlebars = "*"
path-slash = "*"
serde = { version = "*", features = ["derive"] }
serde_json = "*"
walkdir = "*"
