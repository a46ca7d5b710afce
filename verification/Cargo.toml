[package]
name = "kenkoterminal"
version = "0.1.0"
edition = "2021"
publish = false

[dependencies]
anyhow = "1"
base64 = "0.22"
dirs = "6"
fastrand = "2"
keyring = "3"
parking_lot = "0.12"
portable-pty = "0.9"
russh = "0.54"
russh-sftp = "2"
serde = { version = "1", features = ["derive"] }
serde_json = "1"
serialport = "4"
tokio = { version = "1", features = ["full"] }
ureq = "2"
