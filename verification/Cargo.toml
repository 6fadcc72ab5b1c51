[package]
name = "eyes"
version = "0.1.0"
edition = "2021"
publish = false

[dependencies]
anyhow = "1"
clap = "4"
futures = "0.3"
tokio = { version = "1", features = ["macros", "net", "rt-multi-thread", "time"] }
