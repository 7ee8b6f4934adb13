[package]
name = "fsedump"
version = "0.1.0"
edition = "2021"
publish = false

[dependencies]
bus = "=2.4.1"
regex = "=1.13.1"
flate2 = "*"
zstd = { version = "=0.14.0", features = ["zstdmt"] }
clap = { version = "*", features = ["derive"] }
clap_complete = "*"
serde = { version = "*", features = ["derive"] }
serde_json = "*"
serde_yaml = "*"
csv = "*"
color-eyre = "*"
log = "*"
env_logger = "*"
crossbeam = "*"
crossbeam-channel = "*"
notify = "*"
notify-debouncer-full = "*"
time = { version = "*", features = ["local-offset"] }
walkdir = "*"
