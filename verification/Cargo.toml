[package]
name = "gftools"
version = "0.1.0"
edition = "2021"
publish = false

[dependencies]
chrono = { version = "0.4", features = ["serde"] }
log = "0.4"
protobuf = "3"
reqwest = { version = "0.12", default-features = false, features = ["blocking"] }
scraper = "*"
serde = { version = "1", features = ["derive"] }
serde_json = "1"
serde_json_path_to_error = "*"
skrifa = "*"
thiserror = "*"
toml = "*"
