[package]
name = "just_mcp"
version = "0.1.0"
edition = "2021"
publish = false

[dependencies]
duct = "=1.1.2"
clap = "=4.6.7"
dotenvy = "=0.15.7"
rmcp = { version = "=3.5.1", features = ["transport-io"] }
serde = { version = "=1.0.229", features = ["derive"] }
serde_json = "=1.0.151"
snafu = "=0.9.2"
tokio = { version = "=1.53.2", features = ["rt-multi-thread", "macros"] }

[dev-dependencies]
tempfile = "=3.27.0"
