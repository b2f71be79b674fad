[package]
name = "ampersona"
version = "0.1.0"
edition = "2021"
publish = false

[dependencies]
base64 = "=0.23.1"
ed25519-dalek = "=3.0.0"
serde_json = "=1.0.151"
sha2 = "=0.11.0"
