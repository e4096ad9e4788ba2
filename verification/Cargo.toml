[package]
name = "blocklist_worker"
version = "0.1.0"
edition = "2021"
publish = false

[dependencies]
anyhow = "=1.0.104"
bson = "=2.15.0"
chrono = { version = "=0.4.45", default-features = false, features = ["std", "now"] }
ctrlc = "=3.5.2"
dotenvy = "=0.15.7"
flate2 = "=1.1.10"
futures = "=0.3.34"
mongodb = "=3.9.1"
rayon = "=1.12.0"
regex = "=1.13.1"
reqwest = { version = "=0.12.28", default-features = false, features = ["gzip", "stream", "rustls-tls"] }
serde = { version = "=1.0.229", features = ["derive"] }
sha2 = "=0.10.9"
tokio = { version = "=1.54.1", features = ["rt-multi-thread", "macros", "time", "sync", "fs"] }
tracing = "=0.1.44"
tracing-subscriber = "=0.3.23"
url = "=2.5.8"
uuid = { version = "=1.29.0", features = ["v4"] }
