[package]
name = "puppet"
version = "0.1.0"
edition = "2021"
publish = false

[dependencies]
crossbeam-queue = "0.3"
flume = "0.11"
futures = "0.3"
tokio = { version = "1", features = ["rt"] }
syn = { version = "1", features = ["full", "extra-traits"] }
quote = "1"
proc-macro2 = "1"
