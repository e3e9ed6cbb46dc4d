[package]
name = "dsi"
version = "0.1.0"
edition = "2021"
publish = false

[dependencies]
rocket = { version = "0.5", features = ["json"] }
reqwest = { version = "0.11", default-features = false }
tokio = { version = "1", features = ["process", "io-util"] }

[dev-dependencies]
toml = "0.8"
