[package]
name = "slot_balancer"
version = "0.1.0"
edition = "2021"
publish = false

[dependencies]
async-trait = "0.1"
bytes = "1"
log = "0.4"
pingora = { version = "0.4", features = ["proxy"] }
serde = { version = "1", features = ["derive"] }
tokio = { version = "1", features = ["sync"] }
