[package]
name = "dial9_viewer"
version = "0.1.0"
edition = "2021"
publish = false

[dependencies]
arrow = { version = "=60.1.0", default-features = false }
parquet = "=60.1.0"
bytes = "=1.12.1"
mime_guess = "=2.0.5"
axum = "=0.8.9"
axum-extra = { version = "=0.12.6", features = ["query"] }
tower-http = { version = "=0.7.1", features = ["cors", "fs"] }
futures = "=0.3.34"
serde = { version = "1", features = ["derive"] }
rust-embed = "=8.13.0"
aws-sdk-s3 = { version = "=1.157.0", default-features = false, features = ["rt-tokio"] }
tracing = "=0.1.44"
