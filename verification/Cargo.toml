[package]
name = "async-graphql-parser"
version = "0.1.0"
edition = "2021"
publish = false

[dependencies]
arrayvec = "0.7"
serde = { version = "1", features = ["derive"] }
serde_json = "1"
