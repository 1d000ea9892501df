[package]
name = "mindav"
version = "0.1.0"
edition = "2021"
publish = false

[dependencies]
aws-config = { version = "1", features = ["behavior-version-latest"] }
aws-sdk-s3 = "1"
aws-smithy-types = "1"
axum = "0.8"
axum-auth = "0.8"
bytes = "1"
dav-server = "0.8"
futures-util = "0.3"
md-5 = "0.10"
serde = { version = "1", features = ["derive"] }
serde_json = "1"
tokio = { version = "1", features = ["full"] }
tower-http = { version = "0.6", features = ["trace"] }
tracing = "0.1"
tracing-subscriber = { version = "0.3", features = ["env-filter"] }
