[package]
name = "memflow"
version = "0.1.0"
edition = "2021"
publish = false

[dependencies]
byteorder = "1"
widestring = "0.4"
serde = { version = "1", features = ["derive"] }
tokio = "0.1"
capnp = "0.10"
capnp-rpc = "0.10"
