[package]
name = "gap"
version = "0.1.0"
edition = "2021"
publish = false

[dependencies]
anyhow = "1"
clap = { version = "4", features = ["derive"] }
console = "*"
crossterm = { version = "*", features = ["event-stream", "osc52"] }
data-encoding = "2"
derive_more = { version = "2", features = ["display", "from_str"] }
futures-buffered = "*"
hex = "0.4"
indicatif = "*"
n0-future = "*"
num_cpus = "1"
rand = "*"
serde = { version = "1", features = ["derive"] }
tokio = { version = "1", features = ["full"] }
tracing = "0.1"
tracing-subscriber = "0.3"
walkdir = "2"
