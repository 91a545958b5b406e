[package]
name = "pyroscope"
version = "0.1.0"
edition = "2021"
publish = false

[dependencies]
libc = "=0.2.191"
libflate = "=1.4.0"
log = "=0.4.34"
py-spy = "=0.3.14"
reqwest = { version = "=0.11.27", default-features = false, features = ["blocking"] }
