[package]
name = "beebo"
version = "0.1.0"
edition = "2021"
publish = false

[dependencies]
ratatui = "0.29"
tokio = { version = "1", features = ["full"] }
russh = "0.50"
russh-sftp = "2"
serde = { version = "1", features = ["derive"] }
serde_yaml = "0.9"
vt100 = "0.15"
whoami = "*"
