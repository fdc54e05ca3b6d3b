[package]
name = "chunk_pipeline"
version = "0.1.0"
edition = "2021"
publish = false

[dependencies]
tiktoken-rs = "=0.12.1"
async-openai = { version = "=0.42.1", features = ["chat-completion"] }
dotenv = "=0.15.0"
futures = "=0.3.34"
tokio = { version = "=1.53.2", features = ["macros", "rt-multi-thread"] }
