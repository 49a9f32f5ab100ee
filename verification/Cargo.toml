[package]
name = "fura"
version = "0.1.0"
edition = "2021"
publish = false

[dependencies]
deno_ast = "=0.53.3"
env_logger = "=0.11.11"
futures = "=0.3.34"
rusqlite = "=0.41.0"
serde = { version = "=1.0.229", features = ["derive"] }
serde_json = "=1.0.154"
tracing = "=0.1.44"
