[package]
name = "dispatch-play"
version = "0.1.0"
edition = "2021"
publish = false

[dependencies]
prost = "*"
prost-types = "*"
rdkafka = "*"
tokio = { version = "*", features = ["io-std", "io-util", "macros", "rt-multi-thread"] }
uuid = { version = "*", features = ["v4"] }
