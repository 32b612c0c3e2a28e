[package]
name = "proxy_core"
version = "0.1.0"
edition = "2021"
publish = false

[dependencies]
anyhow = "*"
axum = "*"
brotli = "*"
bytes = "*"
clap = { version = "*", features = ["derive"] }
dirs = "*"
flate2 = "*"
hex = "*"
http = "*"
http-body-util = "*"
http-cache-semantics = "*"
hudsucker = "*"
libc = "*"
mime_guess = "*"
rcgen = "*"
rusqlite = { version = "*", features = ["bundled"] }
serde = { version = "*", features = ["derive"] }
serde_json = "*"
sha2 = "*"
thiserror = "*"
tokio = { version = "*", features = ["full"] }
tokio-rusqlite = { version = "*", features = ["bundled"] }
tokio-stream = "*"
toml = "*"
tower-http = { version = "*", features = ["cors"] }
tracing = "*"
tracing-subscriber = { version = "*", features = ["env-filter"] }
url = "*"
