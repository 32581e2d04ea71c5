[package]
name = "backup_tool"
version = "0.1.0"
edition = "2021"
publish = false

[dependencies]
chrono = "0.4"
copy_dir = "0.1"
dirs = "5"
rand = "0.8"
serde = { version = "1", features = ["derive"] }
serde_yaml = "0.9"
structopt = "0.3"
