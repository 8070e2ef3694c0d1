[package]
name = "sem"
version = "0.1.0"
edition = "2021"
publish = false

[dependencies]
colored = "2"
indicatif = "0.17"
serde = { version = "1", features = ["derive"] }
serde_json = "1"
ureq = { version = "2", default-features = false, features = ["json"] }
