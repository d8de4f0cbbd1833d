[package]
name = "agentic_ssh"
version = "0.1.0"
edition = "2021"
publish = false

[dependencies]
glob = "=0.3.4"
sha2 = "0.10"
regex = "1"
serde = { version = "1", features = ["derive"] }
serde_json = "1"
toml = "0.8"
anyhow = "1"
home = "0.5"
chrono = { version = "0.4", default-features = false, features = ["clock"] }
tokio = { version = "1", features = ["rt-multi-thread", "macros", "io-util", "io-std", "time", "sync", "net", "fs"] }
clap = { version = "4", features = ["derive"] }
russh = "*"
ratatui = "0.29"
crossterm = "0.28"
reqwest = { version = "0.12", default-features = false, features = ["json"] }
ssh2-config = "*"
mimalloc = "*"
