[package]
name = "lex_bytecode"
version = "0.1.0"
edition = "2021"
publish = false

[dependencies]
arrow-array = "*"
indexmap = { version = "2", features = ["serde"] }
serde = { version = "1", features = ["derive"] }
serde_json = "1"
sha2 = "0.10"
smol_str = "0.3"
thiserror = "2"
