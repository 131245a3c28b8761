[package]
name = "doxxer"
version = "0.1.0"
edition = "2021"
publish = false

[dependencies]
regex = "*"
git2 = { version = "*", default-features = false }
clap = { version = "*", features = ["derive"] }
chrono = "*"
config = "*"

[dev-dependencies]
semver = "*"
serde_json = "*"
