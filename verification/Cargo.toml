[package]
name = "simple_ci_cache"
version = "0.1.0"
edition = "2021"
publish = false

[dependencies]
anyhow = "=1.0.104"
async-compression = { version = "=0.4.50", features = ["tokio", "brotli", "xz", "xz-parallel"] }
blake3 = "=1.8.7"
chrono = "=0.4.45"
clap = { version = "=4.6.7", features = ["derive"] }
file_type = "=0.8.11"
glob = "=0.3.4"
nonempty = "=0.12.0"
num_cpus = "=1.17.0"
serde = { version = "=1.0.229", features = ["derive"] }
serde_json = "=1.0.151"
serde_yml = "=0.0.13"
tokio = { version = "=1.53.2", features = ["rt", "rt-multi-thread", "io-util", "io-std", "fs", "process", "macros", "sync"] }
tracing = "=0.1.44"
tracing-subscriber = "=0.3.23"
