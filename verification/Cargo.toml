[package]
name = "gather"
version = "0.1.0"
edition = "2021"
publish = false

[dependencies]
anyhow = "=1.0.104"
bytes = "=1.12.1"
cargo-deny = { version = "=0.19.0", default-features = false }
clap = { version = "=4.6.7", features = ["derive"] }
crossbeam-channel = "=0.5.17"
csv = "=1.4.0"
flate2 = "=1.1.10"
futures = "=0.3.34"
gag = "=1.0.0"
git2 = { version = "*", default-features = false }
home = "=0.5.12"
krates = "=0.20.0"
# Not used directly: gix needs kstring, whose releases from 2.0.3 on need rustc 1.96.
kstring = ">=2.0.0, <2.0.3"
log = "=0.4.35"
rayon = "=1.12.0"
reqwest = { version = "=0.13.5", default-features = false }
semver = { version = "=1.0.28", features = ["serde"] }
serde = { version = "=1.0.229", features = ["derive"] }
serde_json = "=1.0.154"
strum = "=0.27.2"
tar = "=0.4.46"
tempdir = "=0.3.7"
tokio = { version = "=1.54.1", features = ["rt-multi-thread", "sync", "time"] }
tracing = "=0.1.44"
tracing-indicatif = "*"
tracing-subscriber = { version = "=0.3.23", features = ["env-filter"] }
indicatif = "*"
walkdir = "=2.5.0"
