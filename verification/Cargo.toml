[package]
name = "room_finder"
version = "0.1.0"
edition = "2021"
publish = false

[dependencies]
url = "2"
serde_urlencoded = "0.7"
chrono = "0.4"
kuchiki = "0.8"
serde = { version = "1", features = ["derive"] }
serde_json = "1"
ron = "*"
reqwest = { version = "0.11", default-features = false, features = ["blocking"] }
static-http-cache = "*"
dirs = "*"
anyhow = "1"
bytes = "1"
itertools = "*"
geocoding = "*"
geo-types = "*"
lazy_static = "1"
fehler = "1"
