[package]
name = "sudoku_server"
version = "0.1.0"
edition = "2021"
publish = false

[dependencies]
tokio = { version = "=1.53.2", features = ["full"] }
rand = "=0.10.3"
serde = { version = "=1.0.229", features = ["derive"] }
serde_json = "=1.0.151"
warp = { version = "=0.4.3", features = ["server", "websocket"] }
futures = "=0.3.34"
log = "=0.4.34"
fern = { version = "=0.7.1", features = ["colored"] }
chrono = "=0.4.45"
clap = { version = "=4.6.7", features = ["derive"] }
toml = "=1.1.7"
signal-hook = "=0.4.5"
sqlx = { version = "=0.9.0", default-features = false, features = ["runtime-tokio", "sqlite", "migrate"] }
