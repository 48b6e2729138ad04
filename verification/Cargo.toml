[package]
name = "awaken_foundation"
version = "0.1.0"
edition = "2021"
publish = false

[dependencies]
async-nats = { version = "0.38", default-features = false, features = ["ring"] }
async-trait = "0.1"
base64 = "0.22"
bytes = "1"
futures = "0.3"
opentelemetry = { version = "0.28", default-features = false, features = ["trace"] }
reqwest = { version = "0.12", default-features = false, features = ["json"] }
rusqlite = { version = "0.32", features = ["bundled"] }
serde = { version = "1", features = ["derive"] }
serde_json = "1"
sha2 = "0.10"
sqlx = { version = "0.8", default-features = false, features = ["runtime-tokio", "postgres", "sqlite"] }
thiserror = "2"
tokio = { version = "1", features = ["io-util", "macros", "net", "rt-multi-thread", "sync", "time"] }
tracing = "0.1"
tracing-opentelemetry = { version = "0.29", default-features = false }
url = "2"
