[package]
name = "rust_mcp_filesystem"
version = "0.1.0"
edition = "2021"
publish = false

[dependencies]
glob = "*"
similar = "*"
dirs = "*"
walkdir = "*"
chrono = "*"
tokio = { version = "*", features = ["full"] }
tokio-util = { version = "*", features = ["compat"] }
async_zip = { version = "*", features = ["tokio", "deflate"] }
futures = "*"
clap = { version = "*", features = ["derive"] }
serde = { version = "*", features = ["derive"] }
serde_json = "*"

[dev-dependencies]
tempfile = "*"
