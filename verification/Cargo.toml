[package]
name = "fsrs"
version = "0.1.0"
edition = "2021"
publish = false

[dependencies]
bincode = { version = "=2.0.0-rc.3", default-features = false }
burn = { version = "=0.9.0", default-features = false, features = ["std", "dataset-minimal"] }
serde = { version = "=1.0.229", features = ["derive"] }
