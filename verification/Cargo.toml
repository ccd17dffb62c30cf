[package]
name = "countdown"
version = "0.1.0"
edition = "2021"
publish = false

[dependencies]
anyhow = "=1.0.104"
clap = { version = "=4.6.7", features = ["derive"] }
figlet-rs = "=0.1.5"
ratatui = "=0.30.2"
soloud = "=1.1.1"
tokio = { version = "=1.54.1", features = ["rt-multi-thread", "macros", "sync", "time"] }
