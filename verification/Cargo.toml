[package]
name = "soredowe"
version = "0.1.0"
edition = "2021"
publish = false

[dependencies]
regex = "=1.13.1"
urlencoding = "=2.1.3"
alpm = "=5.0.2"
alpm-db = "=0.3.0"
alpm-repo-db = "=0.2.0"
serde = { version = "=1.0.229", features = ["derive"] }
serde_json = "=1.0.154"
quick-xml = "=0.42.0"
flate2 = "=1.1.10"
tar = "=0.4.46"
crossbeam-channel = "=0.5.17"
parking_lot = "=0.12.5"
ureq = { version = "=3.5.1", features = ["json"] }
tempfile = "=3.27.0"
nix = { version = "=0.31.3", features = ["signal"] }
log = "=0.4.35"
thiserror = "=2.0.21"
anyhow = "=1.0.104"
env_logger = "=0.11.11"
notify = "=8.2.1"
colorhash = "=0.1.3"
bigcolor = "=1.2.1"
libflatpak = "=0.7.0"
alpm-types = "=0.13.0"
