[package]
name = "bookforge"
version = "0.1.0"
edition = "2021"
publish = false

[dependencies]
csv = "1"
serde = { version = "1", features = ["derive"] }
serde_with = "3"
snafu = "*"
axum = "0.8"
tokio = { version = "1", features = ["rt", "macros", "net", "fs", "sync"] }
sea-orm = { version = "*", default-features = false, features = ["macros", "sqlx-sqlite", "runtime-tokio"] }
sea-orm-migration = { version = "*", default-features = false }
askama = "*"
askama_web = { version = "*", features = ["axum-0.8"] }
camino = { version = "1", features = ["serde1"] }
dirs = "*"
toml = "*"
log = "0.4"
pretty_env_logger = "*"
async-trait = "0.1"
