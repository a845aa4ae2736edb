[package]
name = "delivery"
version = "0.1.0"
edition = "2021"
publish = false

[dependencies]
uuid = "=1.29.0"
diesel = { version = "=1.4.8", features = ["postgres", "r2d2"] }
failure = "=0.1.8"
futures = "=0.1.31"
futures-cpupool = "=0.1.8"
hyper = { version = "=0.14.32", features = ["server", "http1", "tcp"] }
r2d2 = "=0.8.10"
serde = { version = "1", features = ["derive"] }
serde_json = "1"
tokio = { version = "1", features = ["rt-multi-thread", "net"] }
