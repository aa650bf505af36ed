[package]
name = "raft_engine"
version = "0.1.0"
edition = "2021"
publish = false

[dependencies]
futures = "0.3"
rand = { version = "0.9", default-features = false, features = ["std", "std_rng"] }
serde = { version = "1", features = ["derive"] }
thiserror = "1"
tokio = { version = "1", features = ["macros", "rt", "sync", "time"] }
toml = "0.8"
tonic = { version = "0.12", default-features = false, features = ["channel"] }
tracing = "0.1"
