[package]
name = "subtitle_search"
version = "0.1.0"
edition = "2021"
publish = false

[dependencies]
aho-corasick = "1"
rayon = "1"
serde = { version = "1", features = ["derive"] }
serde_json = "1"
tokio = { version = "1", features = ["macros", "rt-multi-thread"] }
env_logger = "*"
