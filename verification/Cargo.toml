[package]
name = "daily_steps"
version = "0.1.0"
edition = "2021"
publish = false

[dependencies]
aws_lambda_events = "=0.2.7"
chrono = "=0.4.45"
dynomite = "=0.7.0"
lambda_runtime = "=0.2.1"
rusoto_core = "=0.41.0"
rusoto_dynamodb = "=0.41.0"
serde = { version = "=1.0.229", features = ["derive"] }
serde_json = "=1.0.154"
simple-error = "=0.2.3"
uuid = { version = "=0.8.2", features = ["v4", "serde"] }
