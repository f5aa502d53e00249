[package]
name = "sui_services"
version = "0.1.0"
edition = "2021"
publish = false

[dependencies]
anyhow = "1"
async-graphql = { version = "7", default-features = false, features = ["dataloader"] }
async-stream = "0.3"
async-trait = "0.1"
bcs = "0.1"
bytes = "1"
diesel = { version = "2", default-features = false, features = ["postgres_backend"] }
futures = "0.3"
http = "1"
jsonrpsee = { version = "0.24", features = ["server", "macros", "http-client"] }
parking_lot = "0.12"
prometheus = { version = "0.13", default-features = false }
serde = { version = "1", features = ["derive"] }
serde_json = { version = "1", features = ["preserve_order"] }
sui-rpc = "*"
sui-sdk-types = "*"
thiserror = "1"
tokio = { version = "1", features = ["sync"] }
tonic = { version = "0.14", default-features = false }
tower = { version = "0.5", default-features = false, features = ["util"] }
tracing = "0.1"
