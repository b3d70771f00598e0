[package]
name = "rune_core"
version = "0.1.0"
edition = "2021"
publish = false

[dependencies]
titlecase = "*"
anyhow = "1"
float-cmp = "*"
sptr = "*"
serde = { version = "1", features = ["derive"] }
serde_json = "1"
proptest = "1"
