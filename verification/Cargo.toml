[package]
name = "query_server"
version = "0.1.0"
edition = "2021"
publish = false

[dependencies]
anyhow = "1"
arc-swap = "1"
aws-config = { version = "1", default-features = false, features = ["behavior-version-latest", "rt-tokio"] }
aws-sdk-s3 = { version = "1", default-features = false, features = ["rt-tokio"] }
axum = "0.7"
chrono = "0.4"
clap = { version = "4", features = ["derive", "env"] }
flate2 = "1"
fst = "0.4"
futures = "0.3"
h3o = "0.7"
httpdate = "1"
maxminddb = "0.24"
md-5 = "0.10"
memmap2 = "0.9"
prometheus = "0.13"
reqwest = { version = "0.12", default-features = false, features = ["stream", "json", "rustls-tls"] }
s2 = "0.0.13"
serde = { version = "1", features = ["derive"] }
serde_json = "1"
tantivy = "0.22"
tar = "0.4"
tokio = { version = "1", features = ["full"] }
tower-http = { version = "0.6", features = ["trace"] }
tracing = "0.1"
tracing-subscriber = { version = "0.3", features = ["env-filter"] }
url = "2"
