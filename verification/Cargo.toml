[package]
name = "ledger_core"
version = "0.1.0"
edition = "2021"
publish = false

[dependencies]
sha2 = "=0.11.0"
tiny-keccak = { version = "2", features = ["keccak"] }
ed25519-dalek = "=3.0.0"
