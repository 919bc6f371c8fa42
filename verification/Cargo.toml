[package]
name = "hls_lfcd_lds_driver"
version = "0.1.0"
edition = "2021"
publish = false

[dependencies]
futures = "0.3"
mio-serial = { version = "5", default-features = false }
serde = { version = "1", features = ["derive"] }
serde-big-array = "*"
serialport = { version = "4", default-features = false }
smol = "1"
tokio = { version = "1", features = ["io-util"] }
tokio-serial = { version = "5", default-features = false }
