[package]
name = "spwf"
version = "0.1.0"
edition = "2021"
publish = false

[dependencies]
aoko = "0.3.0-0"
tokio = { version = "=1.54.1", features = ["rt-multi-thread", "macros", "net", "io-util", "sync", "fs"] }
