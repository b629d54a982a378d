[package]
name = "kv_broker"
version = "0.1.0"
edition = "2021"
publish = false

[dependencies]
hashbrown = "*"
axum = { version = "*", features = ["ws"] }
tokio = { version = "*", features = ["full"] }
futures = "*"
moka = { version = "*", features = ["future"] }
serde = { version = "*", features = ["derive"] }
serde_json = "*"
tower-http = { version = "*", features = ["cors"] }
