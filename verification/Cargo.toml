[package]
name = "basilisk"
version = "0.1.0"
edition = "2021"
publish = false

[dependencies]
anyhow = "1"
axum = "0.8"
base64 = "0.22"
chrono = { version = "0.4", features = ["serde"] }
dashmap = "6"
hyper-rustls = { version = "0.27", default-features = false, features = ["http1", "ring", "tls12", "webpki-roots"] }
hyper-util = { version = "0.1", features = ["client", "client-legacy", "http1", "tokio"] }
memcache = { version = "0.17", default-features = false }
mlua = { version = "0.10", features = ["lua54", "send", "vendored"] }
rand = "0.9"
redis = { version = "0.27", default-features = false }
serde = { version = "1", features = ["derive"] }
serde_json = "1"
smallvec = "1"
tokio = { version = "1", features = ["io-util", "macros", "net", "rt-multi-thread", "sync", "time"] }
tracing = "0.1"
tracing-subscriber = { version = "0.3", features = ["env-filter"] }
uuid = { version = "1", features = ["v4", "v7"] }
