[package]
name = "meshwork"
version = "0.1.0"
edition = "2021"
publish = false

[dependencies]
uuid = { version = "=1.29.1", features = ["v4", "serde"] }
chrono = { version = "=0.4.45", default-features = false, features = ["std"] }
arrow-array = { version = "=60.1.0", default-features = false }
arrow-schema = { version = "=60.1.0", default-features = false }
arrow-ipc = { version = "=60.1.0", default-features = false }
anyhow = "=1.0.104"
serde = { version = "=1.0.229", features = ["derive"] }
postcard = { version = "=1.1.3", features = ["alloc"] }
bytes = "=1.12.1"
tokio = { version = "=1.54.1", features = ["rt-multi-thread", "macros", "sync", "time"] }
tracing = "=0.1.44"
iroh = { version = "=1.4.1", default-features = false }
iroh-gossip = "=0.101.0"
n0-future = "=0.3.2"
thiserror = "=2.0.21"
