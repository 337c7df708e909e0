[package]
name = "rustref"
version = "0.1.0"
edition = "2021"
publish = false

[dependencies]
reqwest = { version = "=0.13.5", default-features = false, features = ["blocking"] }
url = "=2.5.8"
hmac = "=0.13.0"
sha1 = "=0.11.0"
rayon = "=1.12.0"
dotenv = "=0.15.0"
serde = { version = "=1.0.229", features = ["derive"] }
serde_json = "=1.0.151"
