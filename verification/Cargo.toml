[package]
name = "tsumiki"
version = "0.1.0"
edition = "2021"
publish = false

[dependencies]
crossbeam-channel = "=0.5.17"
postcard = { version = "=1.1.3", default-features = false, features = ["alloc"] }
renet = { version = "=2.0.1", default-features = false }
renet_netcode = { version = "=2.0.1", default-features = false }
serde = { version = "=1.0.229", features = ["derive"] }
serde_json = "=1.0.154"
