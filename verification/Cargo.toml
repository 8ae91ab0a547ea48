[package]
name = "primitive_bench"
version = "0.1.0"
edition = "2021"
publish = false

[dependencies]
tiny-keccak = { version = "=2.0.2", features = ["keccak"] }
sha2 = "=0.10.9"
k256 = { version = "=0.13.4", features = ["ecdsa"] }
ed25519-dalek = "=2.2.0"
rand = "=0.8.8"
serde = { version = "=1.0.229", features = ["derive"] }
clap = { version = "=4.6.7", features = ["derive"] }
anyhow = "=1.0.104"
tokio = { version = "=1.54.1", features = ["macros", "rt-multi-thread"] }
sp1-zkvm = "=6.10.0"
