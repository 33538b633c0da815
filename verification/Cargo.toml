[package]
name = "cosmwasm_simulate"
version = "0.1.0"
edition = "2021"
publish = false

[dependencies]
clap = "2"
colored = "2"
cosmwasm-std = { version = "1", features = ["staking", "iterator"] }
cosmwasm-vm = { version = "1", features = ["staking", "iterator"] }
itertools = "0.10"
rustyline = "9"
rustyline-derive = "0.6"
serde = { version = "1", features = ["derive"] }
serde_json = "1"
