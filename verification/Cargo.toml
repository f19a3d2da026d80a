[package]
name = "backer"
version = "0.1.0"
edition = "2021"
publish = false

[dependencies]
url = "*"
rand = "*"
reqwest = { version = "*", default-features = false, features = ["rustls-tls"] }
tokio = { version = "*", features = ["rt-multi-thread", "macros", "time", "sync", "fs"] }
futures = "*"
clap = { version = "*", features = ["derive"] }
serde = { version = "*", features = ["derive"] }
serde_json = "*"
csv = "*"
chrono = "*"
log = "*"
env_logger = "*"
indicatif = "*"
thiserror = "*"
