[package]
name = "pagecore"
version = "0.1.0"
edition = "2021"
publish = false

[dependencies]
bit_field = "=0.10.3"
lazy_static = { version = "=1.5.1", features = ["spin_no_std"] }
lock_api = "=0.4.14"
raw-cpuid = "=11.6.0"
spin = "=0.9.9"
x86_64 = { version = "=0.15.5", default-features = false, features = ["instructions"] }
