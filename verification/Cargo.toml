[package]
name = "stash"
version = "0.1.0"
edition = "2021"
publish = false

[dependencies]
anyhow = "*"
blake3 = "*"
chrono = { version = "*", features = ["serde"] }
clap = { version = "*", features = ["derive"] }
colored = "*"
comfy-table = "*"
cursive = "*"
dialoguer = "*"
directories = "*"
html2md = "*"
reqwest = { version = "*", default-features = false, features = ["blocking"] }
rusqlite = { version = "*", features = ["bundled"] }
scraper = "*"
serde = { version = "*", features = ["derive"] }
serde_json = "*"
serde_yaml = "*"
similar = "*"
tempfile = "*"
termbg = "*"
tiny_http = "*"
toml = "*"
url = "*"
which = "*"
