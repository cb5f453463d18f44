[package]
name = "my_redis"
version = "0.1.0"
edition = "2021"
publish = false

[dependencies]
bytes = "1"
mini-redis = "0.4"
tokio = { version = "1", features = ["full"] }
tokio-stream = "0.1"
tokio-util = { version = "0.7", features = ["rt"] }
futures = "0.3"
rand = "*"
tracing = "0.1"
tracing-subscriber = "0.3"
console-subscriber = "*"

[dev-dependencies]
tokio-test = "0.4"
