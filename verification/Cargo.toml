[package]
name = "evm_bunnyhop"
version = "0.1.0"
edition = "2021"
publish = false

[dependencies]
evm-disassembler = "=0.5.0"
eyre = "=0.6.14"
atty = "=0.2.14"
