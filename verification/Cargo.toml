[package]
name = "glacialcast"
version = "0.1.0"
edition = "2021"
publish = false

[dependencies]
anyhow = "=1.0.104"
clap = { version = "=4.6.7", features = ["derive", "env"] }
futures-util = "0.3"
image = { version = "=0.25.10", default-features = false }
libc = "=0.2.191"
postcard = { version = "=1.1.3", default-features = false, features = ["use-std"] }
rand = "=0.8.8"
rusqlite = { version = "=0.31.0", features = ["bundled"] }
serde = { version = "=1.0.229", features = ["derive"] }
sha2 = "=0.10.9"
tokio = { version = "=1.54.1", features = ["full"] }
toml = "=0.8.23"
tracing = "=0.1.44"
tracing-subscriber = { version = "=0.3.23", features = ["env-filter"] }
uuid = { version = "=1.29.0", features = ["v4", "serde"] }
zbus = { version = "5", default-features = false, features = ["tokio"] }
