[package]
name = "sharklet"
version = "0.2.0"
edition = "2021"
publish = false

[dependencies]
ethers = { version = "=2.0.14", default-features = false, features = ["abigen"] }
tokio = { version = "1", features = ["full"] }
warp = { version = "=0.3.7", default-features = false }
serde = { version = "1", features = ["derive"] }
serde_json = "1"
toml = "0.8"
rusqlite = { version = "*", features = ["bundled"] }
r2d2 = "0.8"
r2d2_sqlite = "*"
tracing = "0.1"
tracing-subscriber = { version = "0.3", features = ["env-filter", "json"] }
dotenvy = "0.15"
thiserror = "1"
url = "2"
