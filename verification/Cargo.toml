[package]
name = "nagoya"
version = "0.1.0"
edition = "2021"
publish = false

[dependencies]
async-task = "=4.7.1"
bytes = "=1.12.1"
futures-io = "=0.3.34"
futures-util = { version = "=0.3.34", features = ["io"] }
libc = "=0.2.191"
ps-st3 = { version = "=0.6.3", features = ["host"] }
spin = "=0.9.9"
