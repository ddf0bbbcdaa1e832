[package]
name = "merge_insert"
version = "0.1.0"
edition = "2021"
publish = false

[dependencies]
arrow-array = "58"
arrow-schema = "58"
arrow-select = "58"
datafusion = { version = "53", default-features = false }
datafusion-physical-expr = { version = "53", default-features = false }
futures = "0.3"
roaring = "0.11"
tokio = { version = "1", features = ["rt", "sync"] }
tokio-stream = "0.1"
