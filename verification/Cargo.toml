[package]
name = "vectorlink"
version = "0.1.0"
edition = "2021"
publish = false

[dependencies]
linfa = "0.7"
linfa-clustering = "0.7"
ndarray = "0.15"
rand = "0.8"
serde = { version = "1", features = ["derive"] }
serde_json = "1"
urlencoding = "2"
