[package]
name = "firepit"
version = "0.1.0"
edition = "2021"
publish = false

[dependencies]
petgraph = "=0.6.5"
unicode-width = "=0.1.14"
regex = "=1.13.1"
shlex = "=1.3.0"
serde_json = "=1.0.154"
clap = { version = "=4.6.7", features = ["derive"] }
crossterm = "=0.28.1"
vt100 = "=0.15.2"
tokio = { version = "=1.54.1", features = ["rt-multi-thread", "macros", "sync", "time", "process", "io-util"] }
anyhow = "=1.0.104"
serde = { version = "=1.0.229", features = ["derive"] }
serde_yaml = "=0.9.34"
dotenvy = "*"
globmatch = "*"
