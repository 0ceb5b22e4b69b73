[package]
name = "pty_sessions"
version = "0.1.0"
edition = "2021"
publish = false

[dependencies]
portable-pty = "0.8"
serde_json = "1"

[dev-dependencies]
base64 = "0.22"
