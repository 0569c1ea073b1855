[package]
name = "pipeline"
version = "0.1.0"
edition = "2021"
publish = false

[dependencies]
serde = { version = "1", features = ["derive"] }
serde_json = "1"
jsonpath-rust = "1"
scraper = "*"
csv = "1"
regex = "1"
pdf-extract = "*"
sha2 = "0.10"
uuid = { version = "1", features = ["v4", "v7"] }
url = "2"
