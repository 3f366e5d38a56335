[package]
name = "open_recorder"
version = "0.1.0"
edition = "2021"
publish = false

[dependencies]
md5 = "=0.7.0"
serde = { version = "=1.0.229", features = ["derive"] }
serde_json = "=1.0.151"
tokio = { version = "=1.53.2", features = ["macros", "rt-multi-thread"] }
async-openai = { version = "=0.42.1", features = ["audio", "chat-completion"] }
symphonia = "=0.6.1"
