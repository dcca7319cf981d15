[package]
name = "sable_network"
version = "0.1.0"
edition = "2021"
publish = false

[dependencies]
wildmatch = "=2.7.0"
pwhash = "=1.0.0"
sha1 = "=0.10.7"
hex = "=0.4.3"
rand = "=0.8.8"
chrono = { version = "=0.4.45", default-features = false, features = ["clock", "std"] }
serde = { version = "=1.0.229", features = ["derive"] }
serde_json = "=1.0.154"
ipnet = { version = "=2.12.2", features = ["serde"] }
rustls-pemfile = "1"
x509-parser = "0.15"
