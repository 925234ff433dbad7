[package]
name = "jitterbug"
version = "0.1.0"
edition = "2021"
publish = false

[dependencies]
aes-gcm = "=0.11.1"
base64 = "=0.22.1"
anyhow = "1"
tokio = { version = "1", features = ["full"] }
rodio = "*"
ratatui = "*"
crossterm = "*"
