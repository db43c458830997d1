[package]
name = "ebar"
version = "0.1.0"
edition = "2021"
publish = false

[dependencies]
anyhow = "1"
clap = { version = "3", features = ["derive"] }
regex = "1"
serde = "1"
serde_json = "1"
shellexpand = "2"
thiserror = "1"

[dev-dependencies]
quickcheck = "1"
