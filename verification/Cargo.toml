[package]
name = "broker_lib"
version = "0.1.0"
edition = "2021"
publish = false

[dependencies]
bisetmap = "=0.1.6"
bytes = "=1.12.1"
hashbrown = "=0.17.1"
crossbeam = "=0.8.5"
log = "=0.4.34"
tokio = { version = "=1.54.1", features = ["rt", "rt-multi-thread", "macros"] }
webrtc-util = "=0.11.0"
webrtc-dtls = "=0.12.0"
