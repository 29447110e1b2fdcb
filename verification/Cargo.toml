[package]
name = "translation_relay"
version = "0.1.0"
edition = "2021"
publish = false

[dependencies]
deepl = "*"
tokio = { version = "*", features = ["rt-multi-thread", "macros"] }
dotenvy = "*"
