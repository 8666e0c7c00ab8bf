[package]
name = "torrust_tracker"
version = "0.1.0"
edition = "2021"
publish = false

[dependencies]
aquatic_udp_protocol = "=0.2.0"
futures = "=0.3.34"
hmac = "0.12"
lazy_static = "=1.5.1"
log = "=0.4.34"
rand = "0.8"
sha2 = "0.10"
tokio = { version = "=1.54.1", features = ["macros", "net", "rt-multi-thread", "signal", "sync", "time"] }
warp = "=0.3.7"
