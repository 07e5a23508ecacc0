[package]
name = "hyperlog"
version = "0.1.0"
edition = "2021"
publish = false

[dependencies]
base64 = "=0.22.1"
lz4 = "=1.28.1"
seahash = "=4.1.0"
serde = "=1.0.229"

[dev-dependencies]
nanorand = "=0.7.0"
