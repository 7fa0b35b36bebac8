[package]
name = "turbolog"
version = "0.3.0"
edition = "2021"
publish = false

[dependencies]
anyhow = "1"
clap = { version = "4", features = ["derive"] }
clap_complete = "4"
crossterm = "0.28"
drain-rs = "*"
lru = "*"
ort = "2.0.0-rc.9"
ratatui = "0.29"
rusqlite = { version = "0.32", features = ["bundled"] }
serde = { version = "1", features = ["derive"] }
serde_json = "1"
tiny_http = "0.12"
tokenizers = "*"
turbovec = "*"
ureq = { version = "2", features = ["json"] }
