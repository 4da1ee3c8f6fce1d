[package]
name = "datalints"
version = "0.1.0"
edition = "2021"
publish = false

[dependencies]
ahash = "*"
regex = "*"
arrow = { version = "*", default-features = false }
arrow-json = "*"
arrow-schema = "*"
clap = { version = "*", features = ["derive"] }
derive_more = { version = "*", features = ["from_str", "display", "deref", "deref_mut"] }
eyre = "*"
memmap2 = "*"
