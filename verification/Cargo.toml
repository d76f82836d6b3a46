[package]
name = "loglens"
version = "0.1.2"
edition = "2021"
publish = false

[dependencies]
clap = { version = "=4.6.7", features = ["derive"] }
colored = "=2.2.0"
ctrlc = "=3.5.2"
flate2 = "=1.1.10"
glob = "=0.3.4"
humantime = "=2.4.0"
loglens-core = "=0.1.3"
rayon = "=1.12.0"
serde_json = "=1.0.154"
