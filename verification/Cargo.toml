[package]
name = "nasus"
version = "0.1.0"
edition = "2021"
publish = false

[dependencies]
colored = "*"
dotenv = "*"
peace-performance = "*"
reqwest = "*"
tokio = { version = "1", features = ["full"] }
