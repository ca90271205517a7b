[package]
name = "aqc_core"
version = "0.1.0"
edition = "2021"
publish = false

[dependencies]
aranya-crypto = "*"
aranya-aqc-util = "*"
aranya-keygen = "*"
bimap = "*"
postcard = "*"
hex = "*"
serde = { version = "*", features = ["derive"] }
s2n-quic = { version = "*", features = ["provider-tls-rustls"] }
tokio = { version = "*", features = ["full"] }
anyhow = "*"
clap = { version = "*", features = ["derive"] }
bytes = "*"
futures-lite = "*"
thiserror = "*"
tracing = "*"
tracing-subscriber = "*"
