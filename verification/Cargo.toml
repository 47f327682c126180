[package]
name = "zentry_db"
version = "0.1.0"
edition = "2021"
publish = false

[dependencies]
chrono = { version = "0.4", features = ["serde"] }
colored = "*"
once_cell = "1"
regex = "1"
rustyline = "*"
serde = { version = "1", features = ["derive"] }
serde_json = "1"
tabled = "*"
uuid = { version = "1", features = ["serde"] }
