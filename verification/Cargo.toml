[package]
name = "dsql_core"
version = "0.1.0"
edition = "2021"
publish = false

[dependencies]
regex = "*"
chrono = "*"
clap = { version = "*", features = ["derive"] }
crossbeam-channel = "*"
ctrlc = "*"
serde = { version = "*", features = ["derive"] }
serde_json = "*"
socket2 = "*"
toml = "*"
