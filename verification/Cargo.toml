[package]
name = "async_basics"
version = "0.1.0"
edition = "2021"
publish = false

[dependencies]
async-std = "=1.13.2"
base64 = "=0.13.1"
futures = "=0.3.34"
mio = { version = "=0.8.11", features = ["os-poll", "net"] }
rayon = "=1.12.0"
sha1 = "=0.10.7"
