[package]
name = "learner"
version = "0.1.0"
edition = "2021"
publish = false

[dependencies]
chrono = "=0.4.45"
regex = "=1.13.1"
url = "=2.5.8"
quick-xml = "=0.37.5"
serde = { version = "=1.0.229", features = ["derive"] }
serde_json = "=1.0.154"
toml = "=1.1.8"
tokio = { version = "=1.54.1", features = ["rt-multi-thread", "macros"] }
reqwest = { version = "=0.12.28", default-features = false, features = ["json", "rustls-tls"] }
tokio-rusqlite = { version = "=0.8.0", features = ["bundled"] }
dirs = "=7.0.0"
lopdf = "=0.46.0"
thiserror = "=2.0.21"
