[package]
name = "naso_compiler"
version = "0.1.0"
edition = "2021"
publish = false

[dependencies]
serde = { version = "1", features = ["derive"] }
serde_json = "1"
logos = "*"
thiserror = "*"
walkdir = "2"
