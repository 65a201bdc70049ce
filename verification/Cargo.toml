[package]
name = "illiad"
version = "1.0.0"
edition = "2021"
publish = false

[dependencies]
clap = "3"
crc32fast = "1"
dirs = "4"
flate2 = "1"
rand = "0.8"
rocket = { version = "0.5", features = ["json"] }
rocket_db_pools = { version = "0.1", features = ["sqlx_sqlite"] }
serde = { version = "1", features = ["derive"] }
tar = "0.4"
toml = "0.5"
