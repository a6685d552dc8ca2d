[package]
name = "rig"
version = "0.1.0"
edition = "2021"
publish = false

[dependencies]
sha1 = "0.10"
base64 = "0.22"
flate2 = "1"
uuid = { version = "1", features = ["v4", "serde"] }
bcrypt = "0.15"
jsonwebtoken = "9"
serde = { version = "1", features = ["derive"] }
serde_json = "1"
chrono = { version = "0.4", features = ["serde"] }
tokio = { version = "1", features = ["full"] }
axum = { version = "0.8", features = ["multipart"] }
tower-http = { version = "0.6", features = ["cors", "fs"] }
sqlx = { version = "0.8", default-features = false, features = ["postgres", "runtime-tokio", "uuid", "chrono"] }
reqwest = { version = "0.12", default-features = false, features = ["json", "multipart"] }
clap = { version = "4", features = ["derive"] }
dirs = "5"
open = "5"
