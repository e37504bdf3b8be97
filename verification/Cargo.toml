[package]
name = "profiler"
version = "0.1.0"
edition = "2021"
publish = false

[dependencies]
serde = { version = "1", features = ["derive"] }
serde_json = "1"
ipc-channel = "*"
libc = "0.2"
log = "0.4"
pretty_env_logger = "*"
mach = "*"
