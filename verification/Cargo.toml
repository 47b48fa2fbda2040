[package]
name = "prooflane"
version = "0.1.0"
edition = "2021"
publish = false

[dependencies]
serde_json = "=1.0.154"
regex = "=1.13.1"
base64 = "=0.22.1"
minisign-verify = "=0.2.5"
toml = "=0.8.23"
chrono = "=0.4.45"
dirs = "=5.0.1"
walkdir = "=2.5.0"
tokio-util = "=0.7.20"
thiserror = "=2.0.21"
tokio = { version = "=1.54.1", features = ["macros", "rt", "time"] }
tempfile = "=3.27.0"
