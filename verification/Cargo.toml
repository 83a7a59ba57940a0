[package]
name = "rostra_client_db"
version = "0.1.0"
edition = "2021"
publish = false

[dependencies]
redb = "=2.6.4"
redb-bincode = "=0.5.0"
bincode = "=2.0.1"
rand = "=0.9.5"
tokio = { version = "=1.54.1", default-features = false, features = ["rt", "sync", "macros"] }
tracing = "=0.1.44"

[dev-dependencies]
tempfile = "=3.27.0"
