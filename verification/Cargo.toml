[package]
name = "appimage_finder"
version = "0.1.0"
edition = "2021"
publish = false

[dependencies]
serde_json = "*"
flate2 = "*"
serde = { version = "*", features = ["derive"] }
clap = { version = "*", features = ["derive"] }
csv = "*"
reqwest = { version = "*", default-features = false, features = ["blocking", "rustls-tls"] }
indicatif = "*"
