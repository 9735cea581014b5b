[package]
name = "bali_score"
version = "0.1.0"
edition = "2021"
publish = false

[dependencies]
anyhow = "1"
itertools = "0.10"
needletail = { version = "0.3", default-features = false }
num-integer = "0.1"
quick-xml = { version = "0.22", features = ["serialize"] }
serde = { version = "1", features = ["derive"] }
serde_json = "1"
structopt = "0.3"
