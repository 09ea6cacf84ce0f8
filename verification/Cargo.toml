[package]
name = "nextbom"
version = "0.1.0"
edition = "2021"
publish = false

[dependencies]
chrono = "0.4"
csv = "1"
rusqlite = { version = "*", features = ["bundled"] }
serde = { version = "1", features = ["derive"] }
serde_json = "1"
umya-spreadsheet = "*"
uuid = { version = "1", features = ["v4"] }
zip = "*"
