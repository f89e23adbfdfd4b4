[package]
name = "mc_mod_updater"
version = "0.2.0"
edition = "2021"
publish = false

[dependencies]
sha2 = "0.10"
hex = "0.4"
anyhow = "1"
serde = { version = "1", features = ["derive"] }
serde_json = "1"
toml = "0.8"
tokio = { version = "1", features = ["rt-multi-thread", "fs", "time", "macros", "sync"] }
futures-util = "0.3"
reqwest = { version = "0.12", default-features = false, features = ["json", "rustls-tls"] }
russh = "*"
russh-sftp = "*"
