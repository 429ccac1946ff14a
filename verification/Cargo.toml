[package]
name = "mllib"
version = "0.1.0"
edition = "2021"
publish = false

[dependencies]
sha3 = "=0.10.9"
k256 = { version = "=0.13.4", features = ["ecdsa", "serde"] }
serde = { version = "=1.0.229", features = ["derive"] }
serde_json = "=1.0.154"
clap = { version = "=4.6.7", features = ["derive"] }
rand_core = { version = "=0.6.4", features = ["getrandom"] }
tracing-subscriber = { version = "=0.3.23", features = ["env-filter"] }
risc0-zkvm = "=1.2.6"
sp1-zkvm = "=3.4.0"
