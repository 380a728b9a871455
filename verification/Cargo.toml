[package]
name = "evo_wasm"
version = "0.1.0"
edition = "2021"
publish = false

[dependencies]
rand = "=0.8.8"
rand_chacha = "=0.3.1"
wasm-encoder = "=0.263.0"
uuid = { version = "=1.29.0", features = ["v4"] }
serde = { version = "1", features = ["derive"] }
serde_json = "1"
bincode = "=1.3.3"
wasmtime = "=46.0.3"
parking_lot = "*"
tokio = { version = "1", features = ["rt-multi-thread", "macros", "net", "signal", "time", "fs", "sync"] }
axum = "*"
tower-http = { version = "*", features = ["cors", "trace"] }
reqwest = { version = "*", default-features = false, features = ["json", "rustls-tls"] }
sqlx = { version = "*", default-features = false, features = ["sqlite", "runtime-tokio"] }
tracing = "*"
tracing-subscriber = { version = "*", features = ["env-filter"] }
anyhow = "1"
chrono = "*"
dashmap = "*"
futures = "*"
