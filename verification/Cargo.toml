[package]
name = "dns_wire"
version = "0.1.0"
edition = "2021"
publish = false

[dependencies]
byteorder = "=1.5.0"
log = "0.4"
serde = { version = "1", features = ["derive"] }
