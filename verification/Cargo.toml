[package]
name = "klickhouse"
version = "0.1.0"
edition = "2021"
publish = false

[dependencies]
cityhash-rs = "=1.0.1"
lz4 = "=1.28.1"
chrono-tz = "=0.10.4"
time = { version = "=0.3.55", features = ["parsing"] }
bigdecimal = "=0.4.11"
tokio = { version = "=1.54.1", features = ["io-util", "macros", "net", "rt", "sync", "time"] }
socket2 = { version = "=0.6.5", features = ["all"] }
futures-util = { version = "=0.3.34", default-features = false, features = ["std"] }
thiserror = "=1.0.69"
log = "=0.4.34"
async-trait = "=0.1.92"
refinery-core = { version = "=0.8.16", default-features = false }
syn = { version = "=2.0.119", features = ["full"] }
quote = "=1.0.47"
proc-macro2 = "=1.0.107"

[dev-dependencies]
uuid = "=1.29.0"
