[package]
name = "halo"
version = "0.1.0"
edition = "2021"
publish = false

[dependencies]
sha2 = "=0.10.9"
hkdf = "=0.12.4"
p256 = { version = "=0.14.0", features = ["ecdsa"] }
getrandom = "=0.3.4"
uuid = { version = "=1.29.0", features = ["v4"] }
tokio = { version = "=1.54.1", features = ["rt-multi-thread", "net", "time", "sync", "macros", "fs", "io-util"] }
tokio-util = "=0.7.20"
async-trait = "=0.1.92"
thiserror = "=2.0.21"
rcgen = "=0.14.10"
mdns-sd = "=0.21.7"
socket2 = "=0.6.5"
network-interface = "=2.0.5"
