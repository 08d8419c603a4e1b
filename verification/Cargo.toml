[package]
name = "dwbase"
version = "0.1.0"
edition = "2021"
publish = false

[dependencies]
aes-gcm = "=0.10.3"
anyhow = "=1.0.104"
async-nats = { version = "=0.51.0", default-features = false }
async-trait = "=0.1.92"
axum = "=0.8.9"
bincode = { version = "=2.0.1", features = ["serde"] }
crc32fast = "=1.5.4"
fs2 = "=0.4.3"
futures = "=0.3.34"
greentic-types = "=1.2.38173118925"
hex = "=0.4.3"
metrics-exporter-prometheus = { version = "=0.18.3", default-features = false }
parking_lot = "=0.12.5"
rand = "=0.10.3"
rmp-serde = "=1.3.1"
serde = { version = "=1.0.229", features = ["derive"] }
serde_json = "=1.0.154"
sha2 = "=0.10.9"
siphasher = "=1.0.4"
sled = "=0.34.7"
thiserror = "=2.0.21"
time = { version = "=0.3.55", features = ["formatting", "parsing"] }
tokio = { version = "=1.54.1", features = ["macros", "net", "rt-multi-thread", "sync", "time"] }
toml = "=1.1.8"
tracing = "=0.1.44"
tracing-subscriber = "=0.3.23"
uuid = { version = "=1.29.0", features = ["v4"] }

[dev-dependencies]
tempfile = "3"
