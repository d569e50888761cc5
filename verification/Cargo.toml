[package]
name = "telio"
version = "0.1.0"
edition = "2021"
publish = false

[dependencies]
ipnetwork = { version = "=0.20.0", default-features = false }
x25519-dalek = "=2.0.1"
tokio = { version = "=1.54.1", features = ["rt-multi-thread", "sync", "time", "net", "macros"] }
trust-dns-server = { version = "=0.21.2", features = ["resolver"] }
async-trait = "=0.1.92"
parking_lot = "=0.12.5"
num_cpus = "=1.17.0"
thiserror = "=1.0.69"

[dev-dependencies]
hex = "=0.4.3"
wireguard-uapi = { version = "=2.0.5", features = ["xplatform"] }
