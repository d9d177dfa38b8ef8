[package]
name = "wca_overview"
version = "0.1.0"
edition = "2021"
publish = false

[dependencies]
chrono = "0.4"
clap = { version = "4", features = ["derive"] }
indicatif = "0.17"
maud = "*"
plotters = { version = "0.3", default-features = false, features = ["bitmap_backend", "bitmap_encoder", "ttf", "full_palette"] }
rand = "0.8"
regex = "1"
reqwest = { version = "0.12", features = ["blocking"] }
scraper = "*"
serde = { version = "1", features = ["derive"] }
serde_json = "1"
thiserror = "1"
webbrowser = "*"
