[package]
name = "patreon_proxy"
version = "0.1.0"
edition = "2021"
publish = false

[dependencies]
serde = { version = "1", features = ["derive"] }
serde_json = "1"
chrono = { version = "0.4", features = ["serde"] }
darkredis = "*"
sqlx = { version = "*", features = ["postgres"] }
