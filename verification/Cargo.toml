[package]
name = "kernel"
version = "0.1.0"
edition = "2021"
publish = false

[dependencies]
x86_64 = { version = "=0.15.5", default-features = false, features = ["instructions"] }
smoltcp = "=0.6.0"
spin = "=0.12.3"
bootloader = { version = "=0.9.35", features = ["map_physical_memory"] }
tinypci = "=0.1.0"

[dev-dependencies]
serde_cbor = "=0.11.2"
serde = "=1.0.229"
