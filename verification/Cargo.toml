[package]
name = "timezoned"
version = "0.1.0"
edition = "2021"
publish = false

[dependencies]
maxminddb = { version = "=0.20.0", features = ["mmap"] }
memmap2 = "=0.3.1"
tokio = { version = "=1.54.1", features = ["macros", "net", "rt", "time"] }
futures = "=0.3.34"
async-process = "=1.8.1"
log = "=0.4.34"
pretty_env_logger = "=0.5.0"
