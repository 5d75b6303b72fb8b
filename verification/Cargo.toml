[package]
name = "supermailer"
version = "0.1.0"
edition = "2021"
publish = false

[dependencies]
mail-parser = "=0.11.9"
aws-config = "=1.12.0"
# aws-config 1.12 does not build against aws-types 1.7
aws-types = "=1.6.0"
aws-sdk-dynamodb = "=1.131.0"
aws-sdk-s3 = { version = "=1.152.0", default-features = false, features = ["rt-tokio"] }
aws_lambda_events = { version = "=1.2.1", default-features = false, features = ["ses"] }
lambda_runtime = "=1.5.0"
tokio = { version = "=1.54.1", features = ["macros", "rt-multi-thread"] }
futures = "=0.3.34"
serde = { version = "=1.0.229", features = ["derive"] }
serde_json = "=1.0.154"
axum = "=0.8.9"
dotenvy = "=0.15.7"
tracing = "=0.1.44"
tracing-subscriber = "=0.3.23"
