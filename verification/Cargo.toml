[package]
name = "thesamo"
version = "0.1.0"
edition = "2021"
publish = false

[dependencies]
sha3 = "*"
serde = "*"
serde_derive = "*"
serde_cbor = "*"
toml = "*"
