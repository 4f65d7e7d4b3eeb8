[package]
name = "bwaa"
version = "0.1.0"
edition = "2021"
publish = false

[dependencies]
anyhow = "*"
async-trait = "*"
dashmap = "*"
deno_core = "*"
deno_error = "*"
dotenvy = "*"
futures = "*"
prost = "*"
prost-types = "*"
rand = "*"
reqwest = { version = "*", default-features = false }
rusqlite = { version = "*", features = ["bundled"] }
serde = { version = "*", features = ["derive"] }
serde_json = "*"
thiserror = "*"
tokio = { version = "*", features = ["full"] }
tokio-stream = "*"
tonic = "*"
tracing = "*"
tracing-subscriber = { version = "*", features = ["env-filter"] }
twilight-gateway = "*"
twilight-http = "*"
twilight-model = "*"
