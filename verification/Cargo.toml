[package]
name = "meshguard"
version = "0.1.0"
edition = "2021"
publish = false

[dependencies]
anyhow = "1"
async-trait = "0.1"
boringtun = { version = "0.7", default-features = false }
bytes = "1"
curve25519-dalek = "4"
data-encoding = "2"
dirs = "5"
ed25519-dalek = "2"
rand = "0.8"
sha2 = "0.10"
tokio = { version = "1", features = ["rt-multi-thread", "macros", "sync", "time", "net"] }
iroh-base = "0.35"
