[package]
name = "prep"
version = "0.100.0"
edition = "2021"
publish = false

[dependencies]
regex = "1"
glob = "0.3"
sha2 = "0.10"
hex = "0.4"
serde = { version = "1", features = ["derive"] }
serde_json = "1"
chrono = "0.4"
anyhow = "1"
clap = { version = "4", features = ["derive"] }
colored = "2"
ignore = "0.4"
indicatif = "0.17"
rayon = "1"
