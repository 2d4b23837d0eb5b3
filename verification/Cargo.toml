[package]
name = "binrep"
version = "0.1.0"
edition = "2021"
publish = false

[dependencies]
goblin = "*"
serde = { version = "*", features = ["derive"] }
serde_json = "*"
colored = "*"
