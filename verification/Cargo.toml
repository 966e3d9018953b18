[package]
name = "mnemonic_keyboard"
version = "0.1.0"
edition = "2021"
publish = false

[dependencies]
heapless = { version = "0.7", default-features = false }
cstr_core = { version = "0.2", default-features = false }
cty = "0.2"
