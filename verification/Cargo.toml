[package]
name = "spark-server"
version = "0.1.0"
edition = "2021"
publish = false

[dependencies]
serde_json = { version = "=1.0.154", features = ["preserve_order"] }
serde = { version = "=1.0.229", features = ["derive"] }
toml = "=0.8.23"
tokenizers = { version = "=0.21.4", default-features = false, features = ["fancy-regex"] }
xgrammar = "=0.6.0"
# The tensors that xgrammar fills its bitmasks in.
dlpark = "=0.6.0"
axum = "=0.8.9"
tokio = { version = "=1.54.1", features = ["full"] }
tokio-stream = "=0.1.19"
futures = "=0.3.34"
tracing = "=0.1.44"
tracing-subscriber = { version = "=0.3.23", features = ["env-filter", "json"] }
clap = { version = "=4.6.7", features = ["derive"] }
prometheus = "=0.14.0"
lazy_static = "=1.5.1"
anyhow = "=1.0.104"
