[package]
name = "route_rs"
version = "0.1.0"
edition = "2021"
publish = false

[dependencies]
rand = "0.8"
lightningcss = "1.0.0-alpha.50"
cssparser = "0.33"
http = "1"
mime = "0.3"
tokio = { version = "1", features = ["rt", "net", "io-util", "sync", "macros"] }
tower-service = "0.3"
serde = { version = "1", features = ["derive"] }
serde_json = "1"
serde_urlencoded = "0.7"
async-trait = "0.1"
futures = "0.3"
