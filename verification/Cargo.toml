[package]
name = "shade_storage"
version = "0.1.0"
edition = "2021"
publish = false

[dependencies]
borsh = "0.10"
cosmwasm-schema = "1.5"
cosmwasm-std = "1.5"
cw-storage-plus = "1.2"
ethnum = "1"
schemars = "0.8"
serde = { version = "1", features = ["derive"] }
