[package]
name = "check_sysstat_cpu"
version = "0.1.0"
edition = "2021"
publish = false

[dependencies]
linked-hash-map = "0.5"
serde = { version = "1", features = ["derive"] }
serde_json = "1"
clap = "4"
