[package]
name = "bgutil_rs"
version = "0.1.0"
edition = "2021"
publish = false

[dependencies]
cassandra-cpp = "*"
chrono = "*"
clap = "*"
uuid = { version = "*", features = ["v4"] }
