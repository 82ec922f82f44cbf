[package]
name = "compute_telemetry"
version = "0.1.0"
edition = "2021"
publish = false

[dependencies]
http = "1"
serde = { version = "1", features = ["derive"] }
uuid = "1"
prometheus = { version = "0.13", default-features = false }
timely = "0.12"
differential-dataflow = "0.12"
