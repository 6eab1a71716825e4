[package]
name = "huobi_client"
version = "0.1.0"
edition = "2021"
publish = false

[dependencies]
ring = "*"
data-encoding = "*"
chrono = "0.4"
serde = "1"
serde_json = "1"
reqwest = { version = "0.12", default-features = false, features = ["blocking", "json"] }

[dev-dependencies]
percent-encoding = "2"
