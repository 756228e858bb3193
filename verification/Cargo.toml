[package]
name = "yield_liquidator"
version = "0.1.0"
edition = "2021"
publish = false

[dependencies]
ethers = { version = "2", default-features = false }
tokio = { version = "1", features = ["macros", "rt-multi-thread", "time", "process"] }
serde = { version = "1", features = ["derive"] }
serde_json = "1"
