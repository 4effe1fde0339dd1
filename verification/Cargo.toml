[package]
name = "mcp_proxy_tool"
version = "0.1.0"
edition = "2021"
publish = false

[dependencies]
anyhow = "*"
argh = "*"
reqwest = { version = "*", default-features = false }
tokio = { version = "*", features = ["full"] }
