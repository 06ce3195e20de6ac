[package]
name = "code_judge"
version = "0.1.0"
edition = "2021"
publish = false

[dependencies]
axum = "*"
base64 = "*"
bollard = "*"
bytes = "*"
futures-util = "*"
serde = { version = "*", features = ["derive"] }
serde_json = "*"
tokio = { version = "*", features = ["rt-multi-thread", "macros", "net", "time"] }
toml = "*"
tower-http = { version = "*", features = ["cors"] }
uuid = { version = "*", features = ["v4"] }
