[package]
name = "faust"
version = "0.1.0"
edition = "2021"
publish = false

[dependencies]
anyhow = "1"
serde = { version = "1", features = ["derive"] }
serde_json = "1"
serde_json5 = "*"
serde_yml = "*"
indexmap = { version = "2", features = ["serde"] }
tokio = { version = "1", default-features = false, features = ["fs", "rt"] }
