[package]
name = "swapv3"
version = "0.1.0"
edition = "2021"
publish = false

[dependencies]
num-bigint = "0.4"
num-traits = "0.2"
borsh = { version = "1", features = ["derive"] }
thiserror = "1"
solana-program = "2"
