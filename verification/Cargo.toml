[package]
name = "sitepi"
version = "0.0.9"
edition = "2021"
publish = false

[dependencies]
anyhow = "1"
base64 = "0.22"
clap = { version = "4", features = ["derive"] }
ctrlc = "3"
ipnet = "2"
rand = "0.8"
reqwest = { version = "0.12", default-features = false, features = ["blocking", "rustls-tls"] }
serde = { version = "1", features = ["derive"] }
serde_json = "1"
tracing = "0.1"
tracing-subscriber = { version = "0.3", features = ["env-filter"] }
winapi = { version = "0.3", features = ["iphlpapi", "ipmib"] }
wireguard-nt = "*"
x25519-dalek = { version = "2", features = ["static_secrets", "getrandom"] }
