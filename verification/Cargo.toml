[package]
name = "resource_indexer"
version = "0.1.0"
edition = "2021"
publish = false

[dependencies]
clokwerk = "0.4"
log = "0.4"
rayon = "1"
serde = { version = "1", features = ["derive"] }
serde_json = "1"
