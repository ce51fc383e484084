[package]
name = "mtg"
version = "0.1.0"
edition = "2021"
publish = false

[dependencies]
rand = "0.8"
serde = { version = "1", features = ["derive"] }
serde_json = "1"
redux-rs = "*"
tokio = { version = "1", features = ["macros", "rt-multi-thread"] }
