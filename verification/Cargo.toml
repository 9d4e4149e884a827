[package]
name = "dredd-hooks"
version = "0.3.0"
edition = "2021"
publish = false

[dependencies]
bytes = "0.4"
serde = "1"
serde_derive = "1"
serde_json = "1"
futures = "0.1"
tokio-io = "0.1"
tokio-proto = "0.1"
tokio-service = "0.1"
bufstream = "0.1"
chan-signal = "0.3"
docopt = "1"
toml = "0.5"
