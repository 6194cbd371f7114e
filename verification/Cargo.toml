[package]
name = "sshx"
version = "0.1.0"
edition = "2021"
publish = false

[dependencies]
sha2 = "0.10"
ansi_term = "0.12"
mac_address = "1"
whoami = "1"
anyhow = "1"
tracing = "0.1"
tracing-subscriber = { version = "0.3", features = ["env-filter"] }
clap = { version = "4", features = ["derive", "env"] }
