[package]
name = "rust_graph_db"
version = "0.1.0"
edition = "2021"
publish = false

[dependencies]
serde_json = "1"
serde = { version = "1", features = ["derive"] }
thiserror = "1"
rocksdb = { version = "*", default-features = false }
