[package]
name = "rag_core"
version = "0.1.0"
edition = "2021"
publish = false

[dependencies]
axum = "*"
azure_core = "0.21"
azure_data_tables = "*"
azure_storage = "*"
dotenv = "*"
futures = "*"
reqwest = { version = "*", default-features = false, features = ["json"] }
serde = { version = "*", features = ["derive"] }
serde_json = "*"
tokio = { version = "*", features = ["full"] }
tower-http = { version = "*", features = ["cors"] }
tracing-subscriber = "*"
