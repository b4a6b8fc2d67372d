[package]
name = "webproxy"
version = "0.1.0"
edition = "2021"
publish = false

[dependencies]
http = "=1.5.0"
http-cache-reqwest = "=0.16.0"
reqwest = { version = "=0.12.28", default-features = false, features = ["cookies", "gzip", "rustls-tls"] }
reqwest-middleware = "=0.4.2"
