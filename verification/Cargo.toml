[package]
name = "capn"
version = "0.1.0"
edition = "2021"
publish = false

[dependencies]
git2 = { version = "=0.21.0", default-features = false }
log = { version = "=0.4.34", features = ["std"] }
structopt = "=0.3.26"
serde = { version = "=1.0.229", features = ["derive"] }
serde_json = "=1.0.151"
toml = "=1.1.7"
chrono = "=0.4.45"
uuid = { version = "=1.27.0", features = ["v4"] }
rayon = "=1.12.0"
