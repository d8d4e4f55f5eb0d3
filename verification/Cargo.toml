[package]
name = "commit_log"
version = "0.1.0"
edition = "2021"
publish = false

[dependencies]
maelstrom-node = "*"
async-trait = "*"
serde = { version = "*", features = ["derive"] }
uuid = { version = "*", features = ["v4"] }
