[package]
name = "mix_node"
version = "0.1.0"
edition = "2021"
publish = false

[dependencies]
elastic-elgamal = { version = "0.3", features = ["serde"] }
rand = "0.8"
serde = { version = "1", features = ["derive"] }
serde_json = "1"
axum = "0.7"
tokio = { version = "1", features = ["rt-multi-thread", "macros", "net", "sync"] }
reqwest = { version = "0.12", default-features = false, features = ["json"] }
anyhow = "1"
futures = "0.3"
rayon = "1"
