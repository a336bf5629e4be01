[package]
name = "ic_websocket"
version = "0.1.0"
edition = "2021"
publish = false

[dependencies]
ed25519-compact = "*"
sha2 = "*"
ic-certified-map = "*"
serde = "*"
serde_cbor = "*"
candid = "*"
ic-cdk = "*"
ic-cdk-macros = "*"
