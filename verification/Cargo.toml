[package]
name = "dbscriptgen"
version = "0.1.0"
edition = "2021"
publish = false

[dependencies]
calamine = "*"
regex = "*"
serde = { version = "*", features = ["derive"] }
