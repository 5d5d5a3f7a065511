[package]
name = "assuan"
version = "0.1.0"
edition = "2021"
publish = false

[dependencies]
zeroize = "1"
tokio = { version = "1", features = ["time", "sync", "rt", "macros"] }
log = "0.4"
thiserror = "2"
