[package]
name = "wxrust"
version = "0.1.0"
edition = "2021"
publish = false

[dependencies]
ansi_term = "0.12"
async-trait = "0.1"
atty = "0.2"
base64 = "0.22"
chrono = { version = "0.4", default-features = false, features = ["std", "clock"] }
clap = { version = "4", features = ["derive"] }
lazy_static = "1"
regex = "1"
reqwest = { version = "0.12", default-features = false, features = ["json", "rustls-tls"] }
serde = { version = "1", features = ["derive"] }
serde_json = "1"
tokio = { version = "1", features = ["rt-multi-thread", "macros", "sync"] }
