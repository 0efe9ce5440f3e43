[package]
name = "adb_sync_tool"
version = "0.1.0"
edition = "2021"
publish = false

[dependencies]
adb_client = "*"
clap = { version = "4", features = ["derive"] }
console = "*"
dialoguer = "*"
indicatif = "*"
serde = { version = "1", features = ["derive"] }
serde_json = "1"
