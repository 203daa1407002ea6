[package]
name = "arweave_tx_client"
version = "0.1.0"
edition = "2021"
publish = false

[dependencies]
pretend = "*"
pretend-reqwest = "*"
