[package]
name = "boot_core"
version = "0.1.0"
edition = "2021"
publish = false

[dependencies]
x86_64 = { version = "=0.14.13", default-features = false, features = ["instructions"] }
spinning_top = "=0.3.0"
conquer-once = "=0.4.0"
rlibc = "=1.0.0"
