[package]
name = "deck_list_scraper"
version = "0.1.0"
edition = "2021"
publish = false

[dependencies]
select = "=0.6.1"
chrono = "=0.4.45"
serde = { version = "=1.0.229", features = ["derive"] }
serde_json = "=1.0.151"
reqwest = { version = "=0.13.5", default-features = false, features = ["blocking"] }
rusqlite = { version = "=0.40.2", features = ["bundled"] }
scryfall = "=0.25.0"
futures = "=0.3.34"
