[package]
name = "rust_install"
version = "0.1.0"
edition = "2021"
publish = false

[dependencies]
chrono = "*"
clap = "*"
flate2 = "*"
http-body-util = "*"
hyper = { version = "*", features = ["client", "http1"] }
hyper-tls = "*"
hyper-util = { version = "*", features = ["client-legacy", "http1", "tokio"] }
itertools = "*"
libc = "*"
openssl = "*"
tar = "*"
term = "*"
tokio = { version = "*", features = ["rt"] }
toml = "*"
