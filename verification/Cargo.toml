[package]
name = "quinn_h3"
version = "0.1.0"
edition = "2021"
publish = false

[dependencies]
bytes = "0.5"
futures = "0.3"
http-body = "0.3"
pin-project = "0.4"
quinn = "0.6"
rustls = { version = "0.17", features = ["quic"] }
tokio = "0.2"
tokio-util = { version = "0.3", features = ["codec"] }
webpki = "0.21"
webpki-roots = "0.19"
