[package]
name = "novation_bridge"
version = "0.1.0"
edition = "2021"
publish = false

[dependencies]
anyhow = "1"
direct_ring_buffer = "*"
futures = "0.3"
jack = "*"
nusb = "0.1"
tokio = { version = "1", features = ["macros", "rt-multi-thread", "sync", "time"] }
tracing = "0.1"
tracing-subscriber = "0.3"
wmidi = "4"
