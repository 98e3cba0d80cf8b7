[package]
name = "tene_checkout"
version = "0.1.0"
edition = "2021"
publish = false

[dependencies]
sha1 = "0.10"
uuid = { version = "1", features = ["v4"] }
serde = { version = "1", features = ["derive"] }
serde_json = "1"
reqwest = { version = "0.12", default-features = false, features = ["json"] }
tokio = { version = "1", features = ["rt-multi-thread", "macros"] }
rust_decimal = "1"
