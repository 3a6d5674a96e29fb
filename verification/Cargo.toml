[package]
name = "relayhop"
version = "0.3.0"
edition = "2021"
publish = false

[dependencies]
anyhow = "1"
clap = { version = "4", features = ["derive"] }
directories = "*"
eframe = { version = "0.33", default-features = false, features = ["glow", "x11", "default_fonts"] }
fs2 = "0.4"
futures = "0.3"
ksni = { version = "*", features = ["blocking"] }
reqwest = { version = "*", default-features = false, features = ["socks"] }
serde_json = "1"
sysinfo = "*"
tokio = { version = "1", features = ["full"] }
tokio-util = "0.7"
tracing = "0.1"
tracing-subscriber = { version = "0.3", features = ["env-filter"] }
