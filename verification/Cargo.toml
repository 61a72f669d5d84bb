[package]
name = "reader_bt"
version = "0.1.0"
edition = "2021"

[dependencies]
btleplug = "0.11"
futures = "0.3"
tokio = { version = "1", features = ["macros", "rt-multi-thread", "time"] }
uuid = "1"
