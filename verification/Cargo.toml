[package]
name = "gdem"
version = "1.3.0"
edition = "2021"
publish = false

[dependencies]
clap = { version = "4", features = ["derive"] }
colored = "*"
flate2 = "1"
indicatif = "*"
regex = "1"
reqwest = { version = "0.12", default-features = false, features = ["stream", "rustls-tls"] }
ring = "0.17"
serde = { version = "1", features = ["derive"] }
serde_json = { version = "1", features = ["preserve_order"] }
tabled = "*"
tar = "0.4"
tokio = { version = "1", features = ["full"] }
tokio-stream = "0.1"
zip = { version = "*", default-features = false, features = ["deflate"] }
