[package]
name = "rtframe"
version = "0.1.0"
edition = "2021"
publish = false

[dependencies]
heapless = "=0.7.17"
postcard = { version = "=1.1.3", default-features = false, features = ["use-std"] }
serde = { version = "=1.0.229", default-features = false, features = ["derive"] }

[dev-dependencies]
cobs = { version = "=0.3.0", default-features = false }
