[package]
name = "optionledger"
version = "0.1.0"
edition = "2021"
publish = false

[dependencies]
once_cell = "1"
rusqlite = { version = "*", features = ["bundled"] }
serde = { version = "1", features = ["derive"] }
