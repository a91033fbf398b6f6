[package]
name = "conn_pool"
version = "0.1.0"
edition = "2021"
publish = false

[dependencies]
futures-channel = "0.3"
futures-util = "0.3"
hyper = "1"
tracing = "0.1"

[dev-dependencies]
http = "1"
