[package]
name = "commit_stats"
version = "0.1.0"
edition = "2021"
publish = false

[dependencies]
anyhow = "1"
async-channel = "*"
async-executor = "*"
async-h1 = "2"
async-net = "*"
chrono = "0.4"
futures-lite = "*"
http-types = "2"
log = "0.4"
log4rs = "*"
num_cpus = "1"
rusqlite = { version = "*", features = ["bundled"] }
serde = { version = "1", features = ["derive"] }
simple_excel_writer = "*"
tide = "0.16"
toml = "*"
