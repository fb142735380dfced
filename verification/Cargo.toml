[package]
name = "lakepipe"
version = "0.1.0"
edition = "2021"
publish = false

[dependencies]
aws-config = { version = "*", default-features = false }
aws-sdk-s3 = { version = "*", default-features = false, features = ["rt-tokio"] }
bytes = "*"
polars = { version = "*", default-features = false, features = ["parquet"] }
tokio = { version = "*", features = ["macros", "rt-multi-thread"] }
