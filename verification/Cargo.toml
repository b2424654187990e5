[package]
name = "sonoff_diy"
version = "0.1.0"
edition = "2021"
publish = false

[dependencies]
hmac-sha256 = "*"
log = "0.4"
env_logger = "0.7"
paw = "1"
structopt = "0.3"
snafu = "0.6"
serde = { version = "1", features = ["derive"] }
serde_json = "1"
reqwest = { version = "0.12", default-features = false, features = ["blocking", "json"] }
mdns = "0.2"
ifaces = "0.1"
