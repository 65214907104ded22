[package]
name = "codeowners"
version = "0.1.0"
edition = "2021"
publish = false

[dependencies]
colored = "*"
fast-glob = "*"
ignore = "*"
reqwest = { version = "*", default-features = false, features = ["json"] }
serde = { version = "*", features = ["derive"] }
serde_json = "*"
