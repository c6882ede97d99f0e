[package]
name = "praxis"
version = "0.1.0"
edition = "2021"
publish = false

[dependencies]
serde = { version = "1", features = ["derive"] }
serde_json = "1"
regex = "1"
rusqlite = { version = "*", features = ["bundled"] }
reqwest = { version = "0.12", default-features = false, features = ["blocking", "json"] }
zip = { version = "*", default-features = false, features = ["deflate"] }
chrono = "0.4"
libc = "0.2"
