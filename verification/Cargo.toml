[package]
name = "frontend"
version = "0.1.0"
edition = "2021"
publish = false

[dependencies]
serde = { version = "1", features = ["derive"] }
serde_json = "1"
serde_yaml = "0.9"
actix-web = "4"
tokio = { version = "1", features = ["macros", "rt-multi-thread"] }
anyhow = "1"
