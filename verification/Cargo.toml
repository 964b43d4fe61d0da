[package]
name = "assuo"
version = "0.1.0"
edition = "2021"
publish = false

[dependencies]
async-trait = "0.1"
atty = "0.2"
paw = "1"
reqwest = { version = "0.12", default-features = false }
serde = { version = "1", features = ["derive"] }
tokio = { version = "1", features = ["rt", "rt-multi-thread"] }
toml = "0.5"

[dev-dependencies]
rand = "0.8"
