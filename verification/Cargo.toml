[package]
name = "column_reorder"
version = "0.1.0"
edition = "2021"
publish = false

[dependencies]
arrow = { version = "55", default-features = false, features = ["json"] }
parquet = { version = "55", default-features = false, features = ["arrow"] }
thiserror = "1"
tracing = "0.1"
itertools = "0.14"
serde_json = "1"
url = "2"
reqwest = { version = "0.12", default-features = false }

[dev-dependencies]
bytes = "1"
