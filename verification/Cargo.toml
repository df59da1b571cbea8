[package]
name = "compression_service"
version = "0.1.0"
edition = "2021"
publish = false

[dependencies]
bytes = "0.5"
futures = "0.3"
tokio = { version = "0.2", features = ["macros", "rt-threaded", "tcp", "dns", "stream", "sync"] }
tokio-util = { version = "0.2", features = ["codec"] }
