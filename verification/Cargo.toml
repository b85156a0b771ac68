[package]
name = "flight_core"
version = "0.1.0"
edition = "2021"
publish = false

[dependencies]
arrow = "*"
arrow-flight = "*"
bytes = "*"
futures-core = "*"
futures-util = "*"
tokio = { version = "*", features = ["macros", "rt-multi-thread"] }
tonic = "*"
