[package]
name = "scope"
version = "0.7.3"
edition = "2021"
publish = false

[dependencies]
anyhow = "=1.0.104"
chrono = "=0.4.45"
clap = { version = "=4.6.7", features = ["derive"] }
ctrlc = "=3.5.2"
hex = "=0.4.3"
notify = "=6.1.1"
notify-debouncer-mini = "=0.4.1"
serde = { version = "=1.0.229", features = ["derive"] }
serde_json = "=1.0.154"
sha2 = "=0.10.9"
tempfile = "=3.27.0"
thiserror = "=1.0.69"
toml = "=0.8.23"
walkdir = "=2.5.0"
