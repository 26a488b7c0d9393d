[package]
name = "lilaccaps"
version = "1.0.0"
edition = "2021"
publish = false

[dependencies]
semver = "1"
sha2 = "0.10"
anyhow = "1"
clap = { version = "4", features = ["derive"] }
dirs = "6"
hound = "3"
libc = "0.2"
num_cpus = "1"
reqwest = { version = "0.12", default-features = false, features = ["blocking", "json", "rustls-tls"] }
serde = { version = "1", features = ["derive"] }
serde_json = "1"
toml = "0.8"
whisper-rs = "*"
