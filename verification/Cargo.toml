[package]
name = "commit_assist"
version = "0.1.0"
edition = "2021"
publish = false

[dependencies]
color-eyre = "0.6"
colored = "2"
reqwest = { version = "0.12", features = ["json"] }
serde = { version = "1", features = ["derive"] }
serde_json = "1"
tokio = { version = "1", features = ["macros", "rt-multi-thread"] }
