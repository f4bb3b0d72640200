[package]
name = "fizzgig"
version = "0.1.0"
edition = "2021"
publish = false

[dependencies]
age = "=0.10.1"
axum = "=0.7.9"
bytes = "=1.12.1"
dirs = "=5.0.1"
futures = "=0.3.34"
futures-util = "=0.3.34"
jsonwebtoken = "=9.3.1"
lru = "=0.12.5"
passwords = "3"
pwhash = "=1.0.0"
rand = "=0.8.8"
reqwest = { version = "=0.12.28", default-features = false, features = ["json", "stream", "multipart"] }
secrecy = "=0.8.0"
serde = { version = "=1.0.229", features = ["derive"] }
serde_json = "=1.0.154"
thiserror = "=1.0.69"
tokio = { version = "=1.54.1", features = ["full"] }
tokio-stream = "=0.1.19"
tracing = "=0.1.44"
tracing-subscriber = { version = "=0.3.23", features = ["env-filter"] }
uuid = { version = "=0.8.2", features = ["v4"] }
walkdir = "=2.5.0"
zip = { version = "0.6", default-features = false, features = ["deflate"] }
