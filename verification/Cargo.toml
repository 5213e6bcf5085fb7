[package]
name = "shielded_pool"
version = "0.1.0"
edition = "2021"
publish = false

[dependencies]
fawkes-crypto = "=4.4.0"
ff-uint = "=0.2.4"
kvdb = "=0.13.0"
kvdb-memorydb = "=0.13.0"
near-sdk = { version = "=5.29.1", features = ["unit-testing"] }
rand = "=0.7.3"
serde = { version = "=1.0.229", features = ["derive"] }
sha3 = "=0.12.0"
zeropool-bn = "=0.5.11"
