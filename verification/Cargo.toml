[package]
name = "release_manager"
version = "0.1.0"
edition = "2021"
publish = false

[dependencies]
toml = "*"
serde = { version = "1", features = ["derive"] }
structopt = "0.3"
log = "0.4"
env_logger = "*"
walkdir = "2"
zip = { version = "*", default-features = false, features = ["deflate"] }
