[package]
name = "ddns_bridge"
version = "0.1.0"
edition = "2021"
publish = false

[dependencies]
domain = "0.9"
ethers-core = "2"
ethers-contract = "2"
ethers-providers = "2"
serde_json = "1"
simple-error = "0.3"
