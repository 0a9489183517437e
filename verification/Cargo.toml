[package]
name = "lan_discovery"
version = "0.1.0"
edition = "2021"
publish = false

[dependencies]
anyhow = "1"
default-net = "0.14"
log = "0.4"
serde_json = "1"
tokio = { version = "1", features = ["macros", "rt", "sync"] }
whoami = "1"
wol-rs = "1"
