[package]
name = "trading_engine"
version = "0.1.0"
edition = "2021"
publish = false

[dependencies]
rand = "0.8"
tokio = { version = "1", features = ["full"] }
warp = "0.3"
prometheus = { version = "0.13", default-features = false }
clap = { version = "4", features = ["derive"] }
anyhow = "1"
lazy_static = "1"
tracing = "0.1"
tracing-subscriber = "0.3"
csv = "1"
serde = { version = "1", features = ["derive"] }
serde_json = "1"
rayon = "1"
indicatif = "0.17"
num_cpus = "1"
