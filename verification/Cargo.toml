[package]
name = "cid_tool"
version = "0.1.0"
edition = "2021"
publish = false

[dependencies]
sha2 = "*"
hex = "*"
clap = { version = "*", features = ["derive"] }
anyhow = "*"

[dev-dependencies]
cid = "*"
multihash = "*"
