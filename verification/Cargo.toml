[package]
name = "inferra"
version = "0.1.0"
edition = "2021"
publish = false

[dependencies]
anyhow = "=1.0.104"
async-trait = "=0.1.92"
candle-core = { version = "=0.10.2", default-features = false }
clap = { version = "=4.6.7", features = ["derive"] }
either = "=1.19.0"
hf-hub = { version = "0.4", default-features = false }
nalgebra = { version = "=0.34.2", default-features = false, features = ["std"] }
reqwest = { version = "=0.12.28", default-features = false, features = ["json", "rustls-tls"] }
serde = { version = "=1.0.229", features = ["derive"] }
thiserror = "=2.0.21"
tokio = { version = "=1.54.1", features = ["rt-multi-thread", "macros", "sync"] }
