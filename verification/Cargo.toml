[package]
name = "pcp_parser"
version = "0.1.0"
edition = "2021"
publish = false

[dependencies]
anyhow = "=1.0.104"
chrono = "=0.4.45"
csv = "=1.4.0"
env_logger = "=0.11.11"
influxdb = { version = "=0.8.0", features = ["chrono"] }
log = "=0.4.34"
reqwest = "=0.13.5"
tokio = { version = "=1.54.1", features = ["macros", "rt-multi-thread", "time"] }
