[package]
name = "spfquery"
version = "0.1.0"
edition = "2021"
publish = false

[dependencies]
ipnetwork = "*"
owo-colors = "*"
hickory-resolver = "*"
hickory-proto = "*"
tokio = { version = "1", features = ["rt-multi-thread", "macros"] }
clap = { version = "4", features = ["derive"] }
thiserror = "*"
