[package]
name = "glowing-spork"
version = "0.1.0"
edition = "2021"
publish = false

[dependencies]
chrono = "0.4"
quick-xml = "0.37"
poise = "0.6"
sea-orm = { version = "1", default-features = false, features = ["sqlx-postgres", "sqlx-sqlite", "runtime-tokio-rustls"] }
tokio = { version = "1", features = ["full"] }
log = "0.4"
dotenvy = "0.15"
thiserror = "2"
tracing = "0.1"
tracing-subscriber = "0.3"
