[package]
name = "replit_takeout"
version = "0.1.0"
edition = "2021"
publish = false

[dependencies]
anyhow = "=1.0.104"
async-trait = "=0.1.92"
async_zip = { version = "=0.0.19", features = ["tokio", "deflate"] }
base64 = "=0.23.1"
crc32fast = "=1.5.2"
crosis = "=0.1.0"
git2 = "=0.21.0"
rand = "=0.10.3"
reqwest = { version = "=0.12.28", default-features = false, features = ["rustls-tls", "cookies"] }
ropey = "=1.6.1"
serde_json = "=1.0.151"
time = { version = "=0.3.55", features = ["formatting"] }
tokio = { version = "=1.53.2", features = ["full"] }

[dev-dependencies]
