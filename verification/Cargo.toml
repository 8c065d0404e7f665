[package]
name = "asm_compiler"
version = "0.1.0"
edition = "2021"
publish = false

[dependencies]
cargo_metadata = "*"
chrono = "*"
clap = { version = "*", features = ["derive"] }
