[package]
name = "sessionrpc"
version = "0.1.0"
edition = "2021"
publish = false

[dependencies]
bytes = "1"
uuid = { version = "1", features = ["v4"] }
thiserror = "*"
tokio = { version = "1", features = ["sync", "rt", "macros", "time"] }
quinn = "*"
rcgen = "*"
