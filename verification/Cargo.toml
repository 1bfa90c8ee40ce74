[package]
name = "reversi_core"
version = "0.1.0"
edition = "2021"
publish = false

[dependencies]
lambda_runtime = "*"
log = "*"
serde = { version = "*", features = ["derive"] }
simple_logger = "*"
tokio = { version = "*", features = ["macros", "rt"] }
