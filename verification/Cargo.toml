[package]
name = "semdoc"
version = "0.1.0"
edition = "2021"
publish = false

[dependencies]
anyhow = "1"
arrow = { version = "*", default-features = false }
arrow-array = "*"
arrow-schema = "*"
async-trait = "0.1"
axum = "=0.7.9"
blake3 = "=1.8.7"
clap = { version = "4", features = ["derive"] }
futures = "0.3"
md5 = "*"
ndarray = "*"
ort = "2.0.0-rc.10"
reqwest = { version = "=0.13.5", features = ["blocking", "json", "query"] }
rusqlite = { version = "=0.41.1", features = ["bundled"] }
serde = { version = "1", features = ["derive"] }
serde_json = "=1.0.154"
tokenizers = { version = "*", default-features = false, features = ["onig"] }
tokio = { version = "1", features = ["full"] }
toml = "=1.1.8"
tracing-subscriber = { version = "0.3", features = ["env-filter"] }
