[package]
name = "cl"
version = "0.1.0"
edition = "2021"
publish = false

[dependencies]
opencl3 = "*"
cl3 = "*"
lazy_static = "*"
serde = { version = "1", features = ["derive"] }
thiserror = "*"
libloading = "*"
log = "*"
env_logger = "*"
tokio = { version = "1", features = ["rt-multi-thread", "macros", "sync", "time", "signal"] }
napi = "*"
napi-derive = "*"
