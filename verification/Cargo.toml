[package]
name = "iris"
version = "0.1.3"
edition = "2021"
publish = false

[dependencies]
bytes = "1"
crossbeam-channel = "0.5"
dashmap = "6"
napi = { version = "2", features = ["napi4", "tokio_rt"] }
napi-derive = "2"
once_cell = "1"
parking_lot = "0.12"
pyo3 = "0.20"
pyo3-asyncio = { version = "0.20", features = ["tokio-runtime"] }
tokio = { version = "1", features = ["full"] }
tracing = "0.1"

[dev-dependencies]
tracing-subscriber = "0.3"
