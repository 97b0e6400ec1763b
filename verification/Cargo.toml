[package]
name = "wilma_dumper"
version = "0.1.0"
edition = "2021"
publish = false

[dependencies]
anyhow = "*"
base64-url = "*"
csv = "*"
rand = "0.8"
reqwest = { version = "*", default-features = false }
scraper = "*"
serde = { version = "*", features = ["derive"] }
serde_json = "*"
sha2 = "0.10"
tokio = { version = "*", features = ["rt", "rt-multi-thread", "net", "time", "io-util", "macros"] }
webbrowser = "*"
