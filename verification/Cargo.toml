[package]
name = "rabbit_digger"
version = "0.1.0"
edition = "2021"
publish = false

[dependencies]
aho-corasick = "0.7"
lru_time_cache = "0.11"
maxminddb = "0.23"
smoltcp = "0.8"
vec-strings = "*"
serde = { version = "1", features = ["derive"] }
serde_json = "1"
tokio = { version = "1", features = ["rt-multi-thread", "macros", "net", "io-util", "sync", "time"] }
futures = "0.3"
uuid = { version = "1", features = ["v4"] }
tracing = "0.1"
flate2 = "1"
tar = "0.4"
once_cell = "1"
