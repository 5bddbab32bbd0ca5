[package]
name = "edgequake_query"
version = "0.1.0"
edition = "2021"
publish = false

[dependencies]
regex = "=1.13.1"
sha2 = "=0.10.9"
serde = { version = "=1.0.229", features = ["derive"] }
serde_json = "=1.0.154"
async-trait = "0.1"
tokio = { version = "1", default-features = false, features = ["sync"] }
