[package]
name = "gitpow"
version = "0.1.0"
edition = "2021"
publish = false

[dependencies]
git2 = { version = "*", default-features = false }
chrono = { version = "*", default-features = false, features = ["clock", "std"] }
serde = { version = "*", features = ["derive"] }
serde_json = "*"
