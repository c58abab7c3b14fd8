[package]
name = "invite_attribution"
version = "0.1.0"
edition = "2021"
publish = false

[dependencies]
axum = "0.8"
chrono = "0.4"
log = "0.4"
mime_guess = "2"
once_cell = "1"
poise = "0.6"
rust-embed = "8"
serde = { version = "1", features = ["derive"] }
serde_yaml = "0.9"
serenity = "0.12"
sqlx = { version = "0.8", default-features = false, features = ["runtime-tokio", "sqlite", "time"] }
tokio = { version = "1", features = ["macros", "net", "rt-multi-thread"] }
tower-http = { version = "0.6", features = ["cors"] }
uuid = { version = "1", features = ["v4"] }
