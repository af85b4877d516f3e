[package]
name = "ed25519_speccheck"
version = "0.1.0"
edition = "2021"
publish = false

[dependencies]
curve25519-dalek = "=3.2.1"
sha2 = "=0.10.9"
rand = "0.7"
hex = "=0.4.3"
serde = "=1.0.229"
serde_json = "=1.0.151"
anyhow = "=1.0.104"
log = "=0.4.34"
env_logger = "=0.9.3"
