[package]
name = "tokio_stomp"
version = "0.3.0"
edition = "2021"
publish = false

[dependencies]
bytes = "0.5"
failure = "0.1"
futures = "0.3"
nom = "4"
tokio = { version = "0.2", features = ["tcp", "dns"] }
tokio-util = { version = "0.2", features = ["codec"] }
