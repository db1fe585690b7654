[package]
name = "regfs"
version = "0.1.0"
edition = "2021"
publish = false

[dependencies]
anyhow = "=1.0.104"
env_logger = "=0.11.11"
log = "=0.4.34"
winapi = "=0.3.9"
winreg = "=0.56.0"
