[package]
name = "autohour"
version = "0.1.0"
edition = "2021"
publish = false

[dependencies]
anyhow = "1"
base64 = "0.22"
chrono = "0.4"
clap = { version = "4", features = ["derive"] }
cookie_store = "0.21"
lettre = { version = "0.11", default-features = false, features = ["builder", "smtp-transport", "hostname", "pool", "rustls-tls"] }
regex = "1"
reqwest = { version = "0.12", default-features = false, features = ["blocking", "cookies", "json", "rustls-tls"] }
reqwest_cookie_store = "0.8"
rsa = "0.9"
scraper = "*"
serde = { version = "1", features = ["derive"] }
serde_json = "1"
serde_urlencoded = "0.7"
url = "2"
urlencoding = "2"
