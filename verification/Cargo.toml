[package]
name = "fs_galaxy"
version = "0.1.0"
edition = "2021"
publish = false

[dependencies]
rand = "0.9"
ignore = "0.4"
notify = "*"
crossbeam-channel = "0.5"
serde = { version = "1", features = ["derive"] }
serde_json = "1"
tungstenite = "*"
tokio = { version = "1", features = ["macros", "rt-multi-thread", "sync", "time"] }
warp = "0.3"
futures-util = "0.3"
clap = { version = "4", features = ["derive"] }
chrono = "0.4"
