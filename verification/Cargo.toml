[package]
name = "libp2p_dandelion"
version = "0.1.0"
edition = "2021"
publish = false

[dependencies]
bincode = { version = "2", features = ["serde"] }
env_logger = "0.11"
futures = "0.3"
libp2p = { version = "0.55", features = ["ed25519", "gossipsub", "macros", "mdns", "noise", "tcp", "tokio", "yamux"] }
log = "0.4"
rand = "0.9"
tokio = { version = "1", features = ["io-std", "io-util", "macros", "rt-multi-thread", "time"] }
