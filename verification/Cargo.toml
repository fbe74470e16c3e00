[package]
name = "pup_rs"
version = "0.1.0"
edition = "2021"
publish = false

[dependencies]
checksums = "*"
flate2 = "*"
xz2 = "*"
tar = "*"
clap = { version = "*", features = ["derive"] }
tokio = { version = "*", features = ["rt-multi-thread", "macros", "fs", "io-util"] }
reqwest = { version = "*", default-features = false, features = ["rustls-tls"] }
octocrab = "*"
serde = { version = "*", features = ["derive"] }
serde_json = "*"
dirs = "*"
shellexpand = "*"
log = "*"
pretty_env_logger = "*"
prettytable-rs = "*"
chrono = { version = "*", features = ["serde"] }
async-trait = "*"
base_url = "*"
