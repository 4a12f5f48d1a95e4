[package]
name = "doh_auth_proxy"
version = "0.1.0"
edition = "2021"
publish = false

[dependencies]
url = "*"
data-encoding = "*"
rand = "*"
itertools = "*"
tokio = { version = "*", features = ["rt-multi-thread", "net", "io-util", "time", "sync", "macros", "signal"] }
reqwest = { version = "*", default-features = false, features = ["rustls-tls"] }
odoh-rs = "*"

[dev-dependencies]
urlencoding = "*"
