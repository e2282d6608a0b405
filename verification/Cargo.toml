[package]
name = "phantom-rust"
version = "0.1.0"
edition = "2021"
publish = false

[dependencies]
anyhow = "1"
byteorder = "1"
clap = { version = "4", features = ["derive"] }
flume = "0.11"
futures = "0.3"
log = "0.4"
pretty_env_logger = "0.5"
rand = "0.8"
socket2 = "0.5"
tokio = { version = "1", features = ["macros", "net", "rt", "signal", "time"] }
