[package]
name = "mic-rs"
version = "0.1.0"
edition = "2021"
publish = false

[dependencies]
aes = "0.8"
anyhow = "1"
btleplug = "0.11"
cipher = "0.4"
clap = { version = "4", features = ["derive"] }
ctr = "0.9"
env_logger = "0.11"
futures = "0.3"
hkdf = "0.12"
log = "0.4"
p256 = { version = "0.13", features = ["ecdh"] }
rand_core = { version = "0.6", features = ["getrandom"] }
sha2 = "0.10"
thiserror = "1"
tokio = { version = "1", features = ["rt-multi-thread", "macros", "time", "sync", "fs", "io-util"] }
uuid = "1"
