[package]
name = "benchserv"
version = "0.1.0"
edition = "2021"
publish = false

[dependencies]
async-ffi = "=0.5.1"
futures = "=0.3.34"
libloading = "*"
tokio = { version = "=1.53.2", features = ["rt-multi-thread", "sync", "macros", "time"] }
