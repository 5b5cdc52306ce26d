[package]
name = "collie"
version = "0.1.0"
edition = "2021"
publish = false

[dependencies]
atom_syndication = "=0.12.10"
chrono = "=0.4.45"
jsonwebtoken = "=9.3.1"
rand = "=0.8.8"
reqwest = { version = "=0.11.27", default-features = false }
rss = "=2.1.2"
rusqlite = { version = "=0.38.0", features = ["bundled"] }
scraper = "=0.27.0"
sea-query = "=1.0.2"
sea-query-rusqlite = "=0.8.0"
serde = { version = "=1.0.229", features = ["derive"] }
sha1_smol = { version = "=1.0.1", features = ["std"] }
thiserror = "=2.0.21"
