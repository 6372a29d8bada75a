[package]
name = "xage"
version = "0.1.0"
edition = "2021"
publish = false

[dependencies]
chrono = "0.4"
lz4 = "*"
num_cpus = "1"
rand = "0.8"
rust_decimal = "1"
sha2 = "0.10"
sled = "0.34"
sysinfo = "*"
tokio = { version = "1", features = ["full"] }
uuid = { version = "1", features = ["v4"] }
zstd = "*"
