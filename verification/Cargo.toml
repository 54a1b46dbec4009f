[package]
name = "lexica"
version = "0.1.0"
edition = "2021"
publish = false

[dependencies]
chrono = { version = "0.4", default-features = false, features = ["std", "clock"] }
keyring = { version = "3", default-features = false }
reqwest = { version = "0.12", default-features = false, features = ["blocking"] }
rusqlite = { version = "0.32", features = ["bundled"] }
serde = { version = "1", features = ["derive"] }
serde_json = "1"
tauri = { version = "2", default-features = false }
thiserror = "1"
unicode-normalization = "0.1"
zip = { version = "2", default-features = false, features = ["deflate"] }
