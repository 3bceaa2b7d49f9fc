[package]
name = "ampere_core"
version = "0.1.0"
edition = "2021"
publish = false

[dependencies]
anyhow = "1"
id3 = "1"
metaflac = "0.2"
rodio = "0.19"
serde = { version = "1", features = ["derive"] }
serde_json = "1"
thiserror = "1"
