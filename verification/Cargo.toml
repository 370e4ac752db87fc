[package]
name = "html2toml"
version = "0.1.0"
edition = "2021"
publish = false

[dependencies]
scraper = { version = "=0.29.0", default-features = false, features = ["deterministic"] }
ego-tree = "=0.11.1"
toml = { version = "=1.1.8", features = ["preserve_order"] }
