[package]
name = "titanium"
version = "6.0.0"
edition = "2021"
publish = false

[dependencies]
base64 = "0.22"
cookie = "0.18"
ctrlc = "3"
mime_guess = "2"
minijinja = "2"
rhai = { version = "1", features = ["serde", "sync"] }
rusqlite = { version = "0.31", features = ["bundled"] }
serde = { version = "1", features = ["derive"] }
serde_json = "1"
sha2 = "0.10"
tiny_http = "0.12"
toml = "0.8"
ureq = "2"
url = "2"
