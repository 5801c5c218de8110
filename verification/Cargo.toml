[package]
name = "litmine"
version = "0.1.0"
edition = "2021"
publish = false

[dependencies]
anyhow = "=1.0.104"
base64 = "=0.22.1"
chrono = "=0.4.45"
clap = { version = "=4.6.7", features = ["derive"] }
dotenvy = "=0.15.7"
futures-util = "=0.3.34"
image = { version = "=0.25.10", default-features = false, features = ["jpeg"] }
pdfium-auto = "=0.3.1"
pdfium-render = "=0.8.37"
quick-xml = { version = "=0.42.0", features = ["serialize"] }
regex = "=1.13.1"
reqwest = { version = "=0.12.28", default-features = false, features = ["json", "stream", "rustls-tls"] }
rusqlite = { version = "=0.41.1", features = ["bundled"] }
serde = { version = "=1.0.229", features = ["derive"] }
serde_json = "=1.0.154"
sha2 = "=0.10.9"
tokio = { version = "=1.54.1", features = ["full"] }
tracing = "=0.1.44"
tracing-subscriber = { version = "=0.3.23", features = ["env-filter"] }
unicode-normalization = "=0.1.26"
url = "=2.5.8"
uuid = { version = "=1.29.0", features = ["v4", "v5"] }
