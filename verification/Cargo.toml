[package]
name = "parser"
version = "0.1.0"
edition = "2021"
publish = false

[dependencies]
chrono = "0.4"
color-eyre = "0.6"
nohash = "0.2"
reqwest = { version = "0.12", default-features = false, features = ["blocking", "json", "rustls-tls"] }
savefile = "*"
savefile-derive = "*"
serde = { version = "1", features = ["derive"] }
serde_json = "1"
