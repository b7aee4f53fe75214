[package]
name = "compiler_tester"
version = "0.1.0"
edition = "2021"
publish = false

[dependencies]
rayon = "*"
zkevm_opcode_defs = "*"
