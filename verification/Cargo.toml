[package]
name = "minihttp"
version = "0.1.0"
edition = "2021"
publish = false

[dependencies]
base64 = "0.22"
sha1 = "0.10"
hyper = { version = "0.14", features = ["server", "http1", "runtime"] }
http-body = "0.4"
tokio = { version = "1", features = ["full"] }
colored = "2"
