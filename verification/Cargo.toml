[package]
name = "pq"
version = "0.1.0"
edition = "2021"
publish = false

[dependencies]
nom = "=6.2.2"
regex = "=1.4.6"
chrono = "=0.4.45"
serde_json = "=1.0.154"
