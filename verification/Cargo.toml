[package]
name = "readonly"
version = "0.1.0"
edition = "2021"
publish = false

[dependencies]
base64 = "0.21"
dotenvy = "0.15"
image = "0.24"
message-io = "0.14"
proc-maps = "0.3"
process-memory = "0.5"
serde = { version = "1", features = ["derive"] }
serde_json = "1"
sysinfo = "0.29"
tokio = { version = "1", features = ["full"] }
