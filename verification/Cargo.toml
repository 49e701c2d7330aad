[package]
name = "omp-deck"
version = "0.1.0"
edition = "2021"
publish = false

[dependencies]
anyhow = "=1.0.104"
async-trait = "=0.1.92"
axum = "=0.8.9"
clap = { version = "=4.6.7", features = ["derive", "env"] }
dirs = "=7.0.0"
kaishin = "=0.7.5"
reqwest = { version = "=0.13.5", default-features = false, features = ["json", "rustls"] }
serde = { version = "=1.0.229", features = ["derive"] }
serde_json = "=1.0.154"
teravars = { version = "=0.2.2", features = ["merge"] }
tokio = { version = "=1.54.1", features = ["macros", "rt-multi-thread", "net", "process", "time", "sync"] }
toml = "=1.1.8"
which = "=8.0.6"
