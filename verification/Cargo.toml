[package]
name = "minikernel"
version = "0.1.0"
edition = "2021"
publish = false

[dependencies]
x86_64 = { version = "0.14", default-features = false, features = ["instructions"] }
spin = "0.9"
lazy_static = { version = "1.4", features = ["spin_no_std"] }
bootloader = "0.9"
