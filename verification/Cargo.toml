[package]
name = "zeta9"
version = "0.1.0"
edition = "2021"
publish = false

[dependencies]
tokio = { version = "1", features = ["sync", "rt-multi-thread", "macros", "net", "time", "io-std", "io-util"] }
ed25519-dalek = { version = "2", features = ["rand_core", "serde"] }
sha2 = "0.10"
hex = "0.4"
rand = "0.8"
lightning = "*"
bincode = "1"
serde = { version = "1", features = ["derive"] }
clap = { version = "4", features = ["derive"] }
rusqlite = { version = "*", features = ["bundled"] }
stunclient = "*"
anyhow = "1"
async-trait = "0.1"
