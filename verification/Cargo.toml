[package]
name = "cpulimiter"
version = "0.1.0"
edition = "2021"
publish = false

[dependencies]
clap = { version = "3", features = ["derive"] }
ctrlc = "3"
lazy_static = "1"
libc = "0.2"
parking_lot = "0.12"
thiserror = "1"
