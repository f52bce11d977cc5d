[package]
name = "millie"
version = "0.1.0"
edition = "2021"
publish = false

[dependencies]
serde_json = "1"
serde = { version = "1", features = ["derive"] }
sha2 = "0.10"
shlex = "1"
reqwest = { version = "0.12", default-features = false, features = ["stream", "json"] }
tokio = { version = "1", features = ["full"] }
tokio-util = "0.7"
futures = "0.3"
bytes = "1"
http = "1"
anyhow = "1"
async-trait = "0.1"
clap = { version = "4", features = ["derive"] }
tracing = "0.1"
uuid = { version = "1", features = ["v4"] }
toml = "0.9"
image = { version = "0.25", default-features = false, features = ["png"] }
