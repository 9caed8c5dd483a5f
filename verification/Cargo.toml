[package]
name = "narratarr"
version = "0.1.0"
edition = "2021"
publish = false

[dependencies]
regex = "1"
difflib = "0.4"
serde_json = "1"
serde = { version = "1", features = ["derive"] }
toml = "0.8"
ureq = { version = "2", features = ["json"] }
rusqlite = "0.32"
tiny_http = "0.12"
