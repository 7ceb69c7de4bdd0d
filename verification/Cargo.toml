[package]
name = "newspipe"
version = "0.1.0"
edition = "2021"
publish = false

[dependencies]
sha2 = "=0.11.0"
hex = "=0.4.3"
base64 = "=0.23.1"
chrono = "=0.4.45"
anyhow = "*"
thiserror = "*"
serde = { version = "*", features = ["derive"] }
serde_json = "*"
reqwest = { version = "=0.13.5", features = ["blocking", "json", "form"] }
rusqlite = { version = "*", features = ["bundled"] }
url = "*"
readability = "*"
scraper = "*"
