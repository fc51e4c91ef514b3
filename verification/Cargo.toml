[package]
name = "repo_builder"
version = "0.1.0"
edition = "2021"
publish = false

[dependencies]
crc = "*"
hex = "*"
libc = "*"
procfs = { version = "*", default-features = false }
rand = "*"
serde_yaml = "*"
ureq = { version = "*", default-features = false }
url = "*"
xxhash-rust = { version = "*", features = ["xxh3"] }
