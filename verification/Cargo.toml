[package]
name = "jx3sim"
version = "0.1.0"
edition = "2021"
publish = false

[dependencies]
serde = { version = "1", features = ["derive"] }
serde_json = "1"
toml = "0.8"
axum = "0.7"
tokio = { version = "1", features = ["full"] }
tower-http = { version = "0.5", features = ["cors", "fs"] }
reqwest = { version = "0.12", default-features = false }
futures-util = "0.3"
tokio-stream = { version = "0.1", features = ["sync"] }
rand = "0.8"
rand_distr = "0.4"
rayon = "1"
ahash = "0.8"
smallvec = "1"
