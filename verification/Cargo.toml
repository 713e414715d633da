[package]
name = "lyrics_core"
version = "0.1.0"
edition = "2021"
publish = false

[dependencies]
image = { version = "=0.25.10", default-features = false, features = ["jpeg", "png", "gif", "webp", "bmp", "tiff"] }
scraper = "=0.20.0"
lofty = "=0.21.1"
reqwest = { version = "=0.12.28", default-features = false, features = ["blocking", "json", "rustls-tls"] }
rusqlite = { version = "=0.32.1", features = ["bundled"] }
serde = { version = "=1.0.229", features = ["derive"] }
serde_json = "=1.0.154"
keyring = "=3.6.3"
thiserror = "=1.0.69"
symphonia = { version = "0.5", features = ["all"] }
