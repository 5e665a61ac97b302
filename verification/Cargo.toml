[package]
name = "blog_listing"
version = "0.1.0"
edition = "2021"
publish = false

[dependencies]
anyhow = "1"
aws-config = "*"
aws-sdk-dynamodb = "*"
hex = "0.4"
lambda_http = "*"
lambda_runtime = "*"
once_cell = "1"
percent-encoding = "2"
serde = { version = "1", features = ["derive"] }
serde_json = "1"
sha2 = "0.10"
tokio = { version = "1", features = ["macros", "rt-multi-thread"] }
tracing = "0.1"
