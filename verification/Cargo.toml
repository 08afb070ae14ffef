[package]
name = "luoda"
version = "2.2.40"
edition = "2021"
publish = false

[dependencies]
anyhow = "1"
bytes = "1"
default-net = "0.14"
futures = "0.3"
lazy_static = "1.4"
log = "0.4"
tokio = { version = "1", features = ["macros", "net", "rt-multi-thread", "sync", "time"] }
uuid = { version = "1", features = ["v4"] }
whoami = "1.5"
wol-rs = "1.0"
