[package]
name = "medusa_threed"
version = "0.1.0"
edition = "2021"
publish = false

[dependencies]
tokio = { version = "1", features = ["full"] }
tokio-stream = { version = "0.1", features = ["net"] }
tonic = "0.12"
tonic-web = "0.12"
tower-http = { version = "0.6", features = ["cors"] }
http = "1"
rayon = "1"
