[package]
name = "alx"
version = "0.1.0"
edition = "2021"
publish = false

[dependencies]
ammonia = "4"
anyhow = "1"
argon2 = { version = "0.5", features = ["std"] }
axum = "0.8"
chrono = "0.4"
clap = { version = "4", features = ["derive"] }
directories = "*"
libc = "0.2"
pulldown-cmark = "*"
rand = "0.8"
regex = "1"
rpassword = "*"
rusqlite = { version = "*", features = ["bundled"] }
serde = { version = "1", features = ["derive"] }
serde_json = "1"
tokio = { version = "1", features = ["full"] }
uuid = { version = "1", features = ["v7"] }
zip = "*"
