[package]
name = "cw1-subkeys"
version = "0.7.0"
edition = "2021"
publish = false

[dependencies]
cosmwasm-std = { version = "0.15", features = ["staking"] }
cw0 = "0.7"
cw1 = "0.7"
cw1-whitelist = { version = "0.7", features = ["library"] }
cw2 = "0.7"
cw-storage-plus = { version = "0.7", features = ["iterator"] }
schemars = "0.8"
serde = { version = "1.0", default-features = false, features = ["derive"] }
