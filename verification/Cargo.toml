[package]
name = "flectar_mail_core"
version = "0.1.0"
edition = "2021"
publish = false

[dependencies]
chrono = { version = "=0.4.45", default-features = false, features = ["std", "clock"] }
dirs = "=7.0.0"
encoding_rs = "=0.8.44"
futures = "=0.3.34"
keyring = "=4.2.0"
percent-encoding = "=2.3.2"
quick-xml = "=0.42.0"
reqwest = { version = "=0.13.5", default-features = false, features = ["json", "rustls", "stream"] }
rusqlite = { version = "=0.41.1", features = ["backup", "bundled"] }
rustix = { version = "=1.1.6", features = ["fs"] }
serde = { version = "=1.0.229", features = ["derive"] }
serde_json = "=1.0.154"
sha2 = "=0.11.1"
taffy = "=0.15.1"
tempfile = "=3.27.0"
thiserror = "=2.0.21"
tokio = { version = "=1.54.1", features = ["fs", "io-util", "macros", "rt-multi-thread", "sync", "time"] }
tracing = "=0.1.44"
url = "=2.5.8"
