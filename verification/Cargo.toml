[package]
name = "astesiabot_rust"
version = "0.1.0"
edition = "2021"
publish = false

[dependencies]
itertools = "*"
chrono = "0.4"
chrono-tz = "*"
fancy-regex = "*"
indexmap = { version = "2", features = ["serde"] }
serde = { version = "1", features = ["derive"] }
serde_json = { version = "1", features = ["preserve_order"] }
serde_yaml = "0.9"
reqwest = { version = "0.12", default-features = false, features = ["json", "rustls-tls"] }
tokio = { version = "1", features = ["full"] }
dotenvy = "0.15"
nalgebra = "*"
rand = "0.8"
