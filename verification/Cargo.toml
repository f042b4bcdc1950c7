[package]
name = "wispet"
version = "0.1.0"
edition = "2021"
publish = false

[dependencies]
anyhow = "1"
async-trait = "0.1"
dirs = "*"
encoding_rs = "0.8"
env_logger = "0.11"
flate2 = "1"
futures = "0.3"
http = "1"
log = "0.4"
lzo1x = "*"
regex-lite = "0.1"
reqwest = { version = "0.12", default-features = false, features = ["json"] }
ripemd = "0.1"
serde = { version = "1", features = ["derive"] }
serde_json = "1"
tokio = { version = "1", features = ["sync", "rt", "macros"] }
toml = "0.8"
urlencoding = "2"
