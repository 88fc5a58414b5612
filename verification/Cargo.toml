[package]
name = "hoshi"
version = "0.1.0"
edition = "2021"
publish = false

[dependencies]
blake3 = "=1.8.7"
uuid = { version = "=1.29.0", features = ["v7"] }
base64 = "=0.22.1"
x25519-dalek = "=2.0.1"
ed25519-dalek = { version = "=2.2.0", features = ["rand_core", "pkcs8"] }
snow = "=0.9.6"
rand = "=0.9.5"
rand_core = { version = "=0.6.4", features = ["getrandom"] }
serde = { version = "=1.0.229", features = ["derive"] }
serde_json = "=1.0.154"
rmp-serde = "=1.3.1"
toml = "=0.8.23"
dirs = "=6.0.0"
anyhow = "=1.0.104"
clap = { version = "=4.6.7", features = ["derive"] }
bimap = "=0.6.3"
dashmap = "=6.2.1"
rcgen = "0.13"
x509-cert = "0.2"

[dev-dependencies]
tempfile = "=3.27.0"
