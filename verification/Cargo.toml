[package]
name = "local_code_core"
version = "0.1.0"
edition = "2021"
publish = false

[dependencies]
regex = "1"
serde = { version = "1", features = ["derive"] }
serde_json = "1"
similar = "2"
dirs = "*"
globwalk = "*"
sysinfo = "*"
futures = "0.3"
tokio = { version = "1", features = ["full"] }
reqwest = { version = "0.12", default-features = false, features = ["json", "stream", "rustls-tls"] }
async-stream = "0.3"
async-trait = "0.1"
