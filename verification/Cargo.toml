[package]
name = "mserver"
version = "0.1.0"
edition = "2021"
publish = false

[dependencies]
leb128 = "0.2"
varint-simd = "*"
byteorder = "1"
uuid = { version = "1", features = ["v4"] }
bincode = "2"
serde = { version = "1", features = ["derive"] }
serde_json = "1"
bevy_ecs = "*"
local-ip-address = "*"
