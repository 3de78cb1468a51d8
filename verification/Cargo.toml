[package]
name = "node_manager"
version = "0.1.0"
edition = "2021"
publish = false

[dependencies]
toml = "*"
serde_json = "1"
serde = { version = "1", features = ["derive"] }
chrono = "0.4"
sysinfo = "*"
auto-launch = "*"
