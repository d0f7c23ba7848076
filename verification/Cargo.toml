[package]
name = "trie_semantic_search"
version = "0.1.0"
edition = "2021"
publish = false

[dependencies]
chrono = "=0.4.45"
uuid = { version = "=1.27.0", features = ["v4"] }
regex = "=1.13.1"
num_cpus = "=1.17.0"
serde = { version = "*", features = ["derive"] }
serde_json = "*"
toml = "*"
clap = { version = "*", features = ["derive"] }
sled = "*"
bincode = "=1.3.3"
flate2 = "*"
thiserror = "*"
tracing = "*"
tracing-subscriber = "*"
