[package]
name = "spotifalc"
version = "0.1.0"
edition = "2021"
publish = false

[dependencies]
dirs = "=7.0.0"
open = "=5.4.4"
serde = { version = "1", features = ["derive"] }
toml = "=1.1.6"
rspotify = { version = "=0.13.3", default-features = false, features = ["client-ureq", "ureq-rustls-tls"] }
