[package]
name = "tread"
version = "0.1.0"
edition = "2021"
publish = false

[dependencies]
anyhow = "1"
cookie-scoop = "*"
crossterm = "0.28"
dirs = "6"
dom_smoothie = "*"
headless_chrome = "*"
pulldown-cmark = "0.12"
quick-xml = "0.37"
ratatui = "0.29"
serde = { version = "1", features = ["derive"] }
serde_json = "1"
sha2 = "0.10"
tokio = { version = "1", features = ["rt-multi-thread", "macros"] }
unicode-width = "0.2"
ureq = "2"
zip = "2"
