[package]
name = "mev_shield"
version = "1.0.0"
edition = "2021"
publish = false

[dependencies]
num-bigint = "0.4"
sha3 = "0.10"
hex = "0.4"
ring = "0.16"
url = "2"
chrono = "0.4"
uuid = { version = "1.0", features = ["v4"] }
argon2 = "0.5"
rand = "0.8"
serde = { version = "1.0", features = ["derive"] }
serde_json = "1.0"
jsonwebtoken = "9"
clap = { version = "4.0", features = ["derive"] }
anyhow = "1.0"
thiserror = "1.0"
