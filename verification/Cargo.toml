[package]
name = "frith"
version = "0.1.0"
edition = "2021"
publish = false

[dependencies]
rand = "0.8"
rand_chacha = "0.3"
tokio = { version = "1", features = ["full"] }
axum = { version = "0.6", features = ["ws"] }
tower = "0.4"
tower-http = { version = "0.4", features = ["cors", "normalize-path"] }
serde = { version = "1", features = ["derive"] }
serde_json = "1"
chrono = { version = "0.4", features = ["serde"] }
argon2 = "0.5"
comrak = "0.18"
urlencoding = "2"
new_mime_guess = "4"
tokio-util = { version = "0.7", features = ["io"] }
