[package]
name = "debcargo"
version = "0.1.0"
edition = "2021"
publish = false

[dependencies]
textwrap = "*"
semver = "*"
chrono = "*"
toml = "*"
serde = { version = "*", features = ["derive"] }
flate2 = "*"
tar = "*"
tempfile = "*"
anyhow = "*"
