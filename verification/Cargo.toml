[package]
name = "archive-org-redump-link-updater"
version = "0.1.0"
edition = "2021"
publish = false

[dependencies]
regex = "1"
serde_json = "1"
reqwest = { version = "=0.12.28", default-features = false, features = ["blocking", "json", "rustls-tls"] }
eframe = { version = "0.37", default-features = false, features = ["default_fonts", "glow", "x11"] }
