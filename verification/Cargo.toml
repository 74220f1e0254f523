[package]
name = "ferres_db_core"
version = "0.1.0"
edition = "2021"
publish = false

[dependencies]
serde = { version = "1", features = ["derive"] }
serde_json = "1"
md5 = "0.7"
rand = "0.8"
bincode = "1"
memmap2 = "0.9"
thiserror = "1"
lru = "0.12"
rayon = "1"
tracing = "0.1"
hnsw_rs = "*"
pulp = "*"
