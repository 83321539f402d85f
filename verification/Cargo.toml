[package]
name = "ws_server"
version = "0.1.0"
edition = "2021"
publish = false

[dependencies]
async-std = "1"
bs58 = "0.4"
fnv = "1"
futures = "0.3"
hashbrown = "0.9"
jsonrpsee-types = "0.26"
log = "0.4"
parking_lot = "0.11"
rand = "0.8"
serde_json = "1"
