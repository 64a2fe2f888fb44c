[package]
name = "mofa_studio"
version = "0.1.0"
edition = "2021"
publish = false

[dependencies]
chrono = { version = "0.4", default-features = false, features = ["alloc", "std"] }
serde = { version = "1", features = ["derive"] }
serde_json = "1"
dirs = "5"
sysinfo = "0.33"
tokio = { version = "1", features = ["rt", "rt-multi-thread", "macros", "time"] }
crossbeam-channel = "0.5"
parking_lot = "0.12"
log = "0.4"
open = "5"
