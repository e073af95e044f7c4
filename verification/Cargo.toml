[package]
name = "aipack"
version = "0.1.0"
edition = "2021"
publish = false

[dependencies]
derive_more = { version = "1", features = ["from"] }
lazy-regex = "3"
mlua = { version = "0.10", features = ["lua54", "vendored", "serialize", "send"] }
paste = "1"
reqwest = { version = "0.12", default-features = false }
rhai = { version = "1", features = ["sync", "serde"] }
serde_json = "1"
simple-fs = "0.4"
strum = { version = "0.26", features = ["derive"] }
tokio = { version = "1", features = ["rt-multi-thread", "macros"] }
value-ext = "0.1"
