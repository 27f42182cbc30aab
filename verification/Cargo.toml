[package]
name = "ingester"
version = "0.1.0"
edition = "2021"
publish = false

[dependencies]
arrow = { version = "*", default-features = false, features = ["ipc"] }
arrow-flight = "*"
bytes = "1"
flatbuffers = "*"
futures = "0.3"
prost = "*"
thiserror = "*"
tokio = { version = "1", features = ["sync", "macros", "rt"] }
tonic = "*"
