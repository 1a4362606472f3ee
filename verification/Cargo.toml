[package]
name = "releasenotes"
version = "0.1.0"
edition = "2021"
publish = false

[dependencies]
anyhow = "=1.0.104"
async-openai = { version = "=0.42.1", features = ["chat-completion"] }
clap = { version = "=4.6.7", features = ["derive"] }
dotenv = "=0.15.0"
fs-err = "=3.3.2"
http = "=1.5.0"
octocrab = "=0.47.1"
tokio = { version = "=1.53.2", features = ["macros", "rt-multi-thread"] }
