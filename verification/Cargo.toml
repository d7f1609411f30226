[package]
name = "eddie"
version = "0.1.0"
edition = "2021"
publish = false

[dependencies]
regex = "=1.13.1"
serde_json = "=1.0.154"
sha2 = "=0.10.9"
base64 = "=0.22.1"
aes-gcm = "=0.10.3"
argon2 = "=0.5.3"
quoted_printable = "=0.5.2"
url = "=2.5.8"
uuid = { version = "=1.29.0", features = ["v4"] }
chrono = "=0.4.45"
mailparse = "=0.15.0"
quick-xml = { version = "=0.36.2", features = ["serialize"] }
serde = { version = "=1.0.229", features = ["derive"] }
tokio = { version = "=1.54.1", features = ["rt-multi-thread", "macros", "net", "time", "io-util"] }
reqwest = { version = "=0.12.28", default-features = false, features = ["json", "rustls-tls"] }
hickory-resolver = "=0.24.4"
keyring = "=3.6.3"
machine-uid = "=0.5.4"
dirs = "=5.0.1"
toml = "=0.8.23"
tokio-rustls = { version = "=0.26.6", default-features = false, features = ["ring", "tls12"] }
lettre = { version = "0.11", default-features = false, features = ["builder"] }
