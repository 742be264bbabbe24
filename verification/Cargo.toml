[package]
name = "analytics"
version = "0.1.2"
edition = "2021"
publish = false

[dependencies]
anyhow = "1"
async-trait = "0.1"
aws-sdk-s3 = { version = "1", default-features = false, features = ["rt-tokio"] }
bytes = "1"
chrono = "0.4"
maxminddb = "0.32"
parquet = { version = "32", default-features = false, features = ["flate2"] }
thiserror = "1"
tokio = { version = "1", features = ["macros", "rt", "sync", "time"] }
tracing = "0.1"
